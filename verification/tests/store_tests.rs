//! The store, grouping, progress, classification, registry, lookup and
//! ingest paths, run against real SQLite files and real archives.

use jreader::ingest::{process_archive, scan_entry_action, normalized_archive_name, ScanAction, ScanStats};
use jreader::json::{parse_json, JsonValue};
use jreader::kv::{GroupedJSON, KvStore};
use jreader::lookup::{PitchAccents, UserPreferences};
use jreader::progress::{
    CreateTaskParams, ProgressGroupId, ProgressStateTable, ProgressTaskType,
};
use jreader::registry::{DictionaryType, YomitanDictionaries, YomitanDictionary};
use jreader::errors::ErrorKind;
use jreader::tokens::TokenFeature;
use std::io::Write;

fn parse(s: &str) -> JsonValue {
    parse_json(s).expect("test JSON parses")
}

fn group_id() -> ProgressGroupId {
    ProgressGroupId(7)
}

fn entries_of(text: &str) -> Vec<JsonValue> {
    match parse(text) {
        JsonValue::Arr(items) => items,
        _ => panic!("expected an array"),
    }
}

#[test]
fn test_insert_and_get() {
    let temp_dir = tempfile::tempdir().unwrap();
    let dir = temp_dir.path().to_str().unwrap();
    let mut db = KvStore::open_rw(dir, "term_bank_").unwrap();
    db.insert("打", "{}").unwrap();
    let term = db.get("打").unwrap().unwrap();
    assert_eq!(term, "{}");
}

#[test]
fn test_query_with_no_results() {
    let temp_dir = tempfile::tempdir().unwrap();
    let dir = temp_dir.path().to_str().unwrap();
    let db = KvStore::open_rw(dir, "term_bank_").unwrap();
    let term = db.get("打").unwrap();
    assert_eq!(term, None);
}

#[test]
fn grouping_keeps_keys_and_order() {
    let entries = entries_of(
        r#"[["打","だ","n","n",1,["da def 1","da def 2"],1,"E1"],
            ["打","ダース","n abbr","n",1,["daasu def 1","daasu def 2"],2,"E1"],
            ["打つ","うつ","vt","v5",10,["u1"],3,"P E1"]]"#,
    );
    let grouped = GroupedJSON::from_json(&entries).unwrap();
    assert_eq!(grouped.0.len(), 2);
    assert_eq!(grouped.0[0].0, "打");
    assert_eq!(grouped.0[0].1.len(), 2);
    assert_eq!(grouped.0[1].0, "打つ");
    assert_eq!(grouped.0[1].1.len(), 1);
    // the first group holds both entries, in input order
    match &grouped.0[0].1[0] {
        JsonValue::Arr(fields) => assert_eq!(fields[1], JsonValue::Text("だ".to_string())),
        _ => panic!("expected an array entry"),
    }
    match &grouped.0[0].1[1] {
        JsonValue::Arr(fields) => assert_eq!(fields[1], JsonValue::Text("ダース".to_string())),
        _ => panic!("expected an array entry"),
    }
}

#[test]
fn grouping_rejects_unkeyed_entries() {
    let entries = entries_of(r#"[["ok","x"],[1,"bad"]]"#);
    let err = match GroupedJSON::from_json(&entries) {
        Ok(_) => panic!("unkeyed entries must be rejected"),
        Err(e) => e,
    };
    assert_eq!(err.kind, ErrorKind::SchemaDecode);
}

#[test]
fn insert_all_stores_groups_as_rows() {
    let entries = entries_of(
        r#"[["打","だ","n","n",1,["da def 1","da def 2"],1,"E1"],
            ["打","ダース","n abbr","n",1,["daasu def 1","daasu def 2"],2,"E1"]]"#,
    );
    let grouped = GroupedJSON::from_json(&entries).unwrap();
    let temp_dir = tempfile::tempdir().unwrap();
    let dir = temp_dir.path().to_str().unwrap();
    let mut db = KvStore::open_rw(dir, "term_bank_").unwrap();
    let mut progress = ProgressStateTable::new();
    db.insert_all(
        &grouped,
        &mut progress,
        "Test".to_string(),
        "v1".to_string(),
        Some("Term Bank V3".to_string()),
        group_id(),
    )
    .unwrap();
    let payload = db.get("打").unwrap().unwrap();
    let expected = parse(
        r#"[["打","だ","n","n",1,["da def 1","da def 2"],1,"E1"],
            ["打","ダース","n abbr","n",1,["daasu def 1","daasu def 2"],2,"E1"]]"#,
    );
    assert_eq!(parse(&payload), expected);
    assert_eq!(db.get_num_rows().unwrap(), 1);
    // the insert task exists and is complete
    let tasks = progress.get_all_tasks();
    assert_eq!(tasks.len(), 1);
    assert_eq!(tasks[0].task_type, ProgressTaskType::DbInsertAll);
    assert_eq!(tasks[0].current, 1);
    assert_eq!(tasks[0].total, 1);
}

#[test]
fn test_create_and_get_task() {
    let mut table = ProgressStateTable::new();
    let task_id = table.create_task(
        CreateTaskParams {
            task_type: ProgressTaskType::MergeJson,
            dictionary_title: "Test Dict".to_string(),
            dictionary_revision: "1.0".to_string(),
            schema_name: Some("schema1".to_string()),
            total: 100,
        },
        group_id(),
    );
    let progress = table.get_progress(&task_id).unwrap();
    assert_eq!(progress.dictionary_title, "Test Dict");
    assert_eq!(progress.dictionary_revision, "1.0");
    assert_eq!(progress.schema_name, "schema1");
    assert_eq!(progress.current, 0);
    assert_eq!(progress.total, 100);
}

#[test]
fn test_increment_progress() {
    let mut table = ProgressStateTable::new();
    let task_id = table.create_task(
        CreateTaskParams {
            task_type: ProgressTaskType::DbInsertAll,
            dictionary_title: "Test Dict".to_string(),
            dictionary_revision: "1.0".to_string(),
            schema_name: None,
            total: 100,
        },
        group_id(),
    );
    table.increment(&task_id, 50);
    let progress = table.get_progress(&task_id).unwrap();
    assert_eq!(progress.current, 50);
    table.increment(&task_id, 50);
    let progress = table.get_progress(&task_id).unwrap();
    assert_eq!(progress.current, 100);
}

#[test]
fn test_get_all_tasks() {
    let mut table = ProgressStateTable::new();
    let _task1 = table.create_task(
        CreateTaskParams {
            task_type: ProgressTaskType::MergeJson,
            dictionary_title: "Dict1".to_string(),
            dictionary_revision: "1.0".to_string(),
            schema_name: None,
            total: 100,
        },
        group_id(),
    );
    let _task2 = table.create_task(
        CreateTaskParams {
            task_type: ProgressTaskType::DbInsertAll,
            dictionary_title: "Dict2".to_string(),
            dictionary_revision: "2.0".to_string(),
            schema_name: Some("schema2".to_string()),
            total: 200,
        },
        group_id(),
    );
    let tasks = table.get_all_tasks();
    assert_eq!(tasks.len(), 2);
    assert_eq!(tasks[0].dictionary_title, "Dict1");
    assert_eq!(tasks[1].dictionary_title, "Dict2");
}

#[test]
fn test_is_task_complete() {
    let mut table = ProgressStateTable::new();
    let task_id = table.create_task(
        CreateTaskParams {
            task_type: ProgressTaskType::DbInsertAll,
            dictionary_title: "Test Dict".to_string(),
            dictionary_revision: "1.0".to_string(),
            schema_name: None,
            total: 100,
        },
        group_id(),
    );
    assert!(!table.is_task_complete(&task_id));
    table.increment(&task_id, 100);
    assert!(table.is_task_complete(&task_id));
}

fn make_store(dir: &str, prefix: &str, shard: &str, title: &str) -> KvStore {
    let entries = entries_of(shard);
    let grouped = GroupedJSON::from_json(&entries).unwrap();
    let mut db = KvStore::open_rw(dir, prefix).unwrap();
    let mut progress = ProgressStateTable::new();
    db.insert_all(
        &grouped,
        &mut progress,
        title.to_string(),
        "v1".to_string(),
        None,
        group_id(),
    )
    .unwrap();
    db
}

fn index_for(title: &str, revision: &str) -> jreader::index::DictionaryIndex {
    let text = format!(
        "{{\"title\":\"{}\",\"revision\":\"{}\",\"format\":3,\"sequenced\":true}}",
        title, revision
    );
    jreader::index::decode_index(&parse(&text)).unwrap()
}

#[test]
fn classification_follows_table_contents() {
    // a kanji row classifies as a kanji dictionary
    let temp = tempfile::tempdir().unwrap();
    let dir = temp.path().to_str().unwrap();
    let kanji = make_store(dir, "kanji_bank_", r#"[["打","ダ","う.つ","K1 K2",["m1"],{}]]"#, "K");
    let dict = YomitanDictionary {
        origin: "k".to_string(),
        index: index_for("K", "v1"),
        kanji_bank: Some(kanji),
        kanji_meta_bank: None,
        tag_bank: None,
        term_bank: None,
        term_meta_bank: None,
    };
    assert_eq!(dict.identify_dictionary_type().unwrap(), DictionaryType::Kanji);

    // a frequency row classifies as a frequency dictionary
    let temp = tempfile::tempdir().unwrap();
    let dir = temp.path().to_str().unwrap();
    let meta = make_store(dir, "term_meta_bank_", r#"[["打","freq",1]]"#, "F");
    let dict = YomitanDictionary {
        origin: "f".to_string(),
        index: index_for("F", "v1"),
        kanji_bank: None,
        kanji_meta_bank: None,
        tag_bank: None,
        term_bank: None,
        term_meta_bank: Some(meta),
    };
    assert_eq!(dict.identify_dictionary_type().unwrap(), DictionaryType::Frequency);

    // a pitch row classifies as a pitch dictionary
    let temp = tempfile::tempdir().unwrap();
    let dir = temp.path().to_str().unwrap();
    let meta = make_store(
        dir,
        "term_meta_bank_",
        r#"[["打ち込む","pitch",{"pitches":[{"position":0}],"reading":"うちこむ"}]]"#,
        "P",
    );
    let dict = YomitanDictionary {
        origin: "p".to_string(),
        index: index_for("P", "v1"),
        kanji_bank: None,
        kanji_meta_bank: None,
        tag_bank: None,
        term_bank: None,
        term_meta_bank: Some(meta),
    };
    assert_eq!(dict.identify_dictionary_type().unwrap(), DictionaryType::Pitch);

    // a term row classifies as a term dictionary; a kanji revision overrides
    let temp = tempfile::tempdir().unwrap();
    let dir = temp.path().to_str().unwrap();
    let term = make_store(dir, "term_bank_", r#"[["打","だ","n","n",1,["d"],1,"E1"]]"#, "T");
    let dict = YomitanDictionary {
        origin: "t".to_string(),
        index: index_for("T", "v1"),
        kanji_bank: None,
        kanji_meta_bank: None,
        tag_bank: None,
        term_bank: Some(term),
        term_meta_bank: None,
    };
    assert_eq!(dict.identify_dictionary_type().unwrap(), DictionaryType::Term);

    let temp = tempfile::tempdir().unwrap();
    let dir = temp.path().to_str().unwrap();
    let term = make_store(dir, "term_bank_", r#"[["打","だ","n","n",1,["d"],1,"E1"]]"#, "T");
    let dict = YomitanDictionary {
        origin: "t".to_string(),
        index: index_for("T", "kanji-2024"),
        kanji_bank: None,
        kanji_meta_bank: None,
        tag_bank: None,
        term_bank: Some(term),
        term_meta_bank: None,
    };
    assert_eq!(dict.identify_dictionary_type().unwrap(), DictionaryType::Kanji);

    // an empty dictionary fails to classify
    let dict = YomitanDictionary {
        origin: "e".to_string(),
        index: index_for("E", "v1"),
        kanji_bank: None,
        kanji_meta_bank: None,
        tag_bank: None,
        term_bank: None,
        term_meta_bank: None,
    };
    let err = dict.identify_dictionary_type().unwrap_err();
    assert_eq!(err.kind, ErrorKind::Classify);
}

fn term_dictionary(dir: &str, title: &str, revision: &str, shard: &str) -> YomitanDictionary {
    let term = make_store(dir, "term_bank_", shard, title);
    YomitanDictionary {
        origin: format!("{title}.zip"),
        index: index_for(title, revision),
        kanji_bank: None,
        kanji_meta_bank: None,
        tag_bank: None,
        term_bank: Some(term),
        term_meta_bank: None,
    }
}

#[test]
fn registry_rejects_duplicate_title_and_revision() {
    let mut registry = YomitanDictionaries::new();
    let temp1 = tempfile::tempdir().unwrap();
    let first = term_dictionary(
        temp1.path().to_str().unwrap(),
        "Test",
        "v1",
        r#"[["打","だ","n","n",1,["d"],1,"E1"]]"#,
    );
    registry.register_dictionary(first).unwrap();
    let temp2 = tempfile::tempdir().unwrap();
    let second = term_dictionary(
        temp2.path().to_str().unwrap(),
        "Test",
        "v1",
        r#"[["別","べつ","n","n",1,["d"],1,"E1"]]"#,
    );
    let err = registry.register_dictionary(second).unwrap_err();
    assert_eq!(err.kind, ErrorKind::RegistryConflict);
    assert_eq!(registry.terms.len(), 1);
    let infos = registry.get_dictionaries_info();
    assert_eq!(infos.len(), 1);
    assert_eq!(infos[0].title, "Test");
    assert_eq!(infos[0].dictionary_type, DictionaryType::Term);
}

fn surface_token(surface: &str) -> TokenFeature {
    TokenFeature::from_feature_string(surface, "")
}

fn empty_prefs() -> UserPreferences {
    UserPreferences {
        term_dictionary_order: Vec::new(),
        term_disabled_dictionaries: Vec::new(),
        term_spoiler_dictionaries: Vec::new(),
        freq_dictionary_order: Vec::new(),
        freq_disabled_dictionaries: Vec::new(),
    }
}

#[test]
fn lookup_joins_terms_and_pitch() {
    let mut registry = YomitanDictionaries::new();
    let temp1 = tempfile::tempdir().unwrap();
    let term_dict = term_dictionary(
        temp1.path().to_str().unwrap(),
        "Terms",
        "v1",
        r#"[["打つ","うつ","vt","v5",10,["utsu def"],3,"P"],
            ["打つ","ぶつ","vt","v5",1,["butsu def"],3,"P"]]"#,
    );
    registry.register_dictionary(term_dict).unwrap();

    let temp2 = tempfile::tempdir().unwrap();
    let pitch_store = make_store(
        temp2.path().to_str().unwrap(),
        "term_meta_bank_",
        r#"[["打つ","pitch",{"pitches":[{"position":2},{"position":0},{"position":1}],"reading":"うつ"}]]"#,
        "Pitch",
    );
    let pitch_dict = YomitanDictionary {
        origin: "pitch.zip".to_string(),
        index: index_for("Pitch", "v1"),
        kanji_bank: None,
        kanji_meta_bank: None,
        tag_bank: None,
        term_bank: None,
        term_meta_bank: Some(pitch_store),
    };
    registry.register_dictionary(pitch_dict).unwrap();

    let tokens = vec![surface_token("打つ")];
    let res = registry.lookup(&tokens, &empty_prefs()).unwrap();
    assert!(res.skipped.is_empty());
    assert!(res.pitch_skipped.is_empty());
    assert!(res.freq_skipped.is_empty());
    assert_eq!(res.dict.len(), 1);
    assert_eq!(res.dict[0].entries.len(), 2);
    assert_eq!(res.dict[0].entries[0].reading, "うつ");
    assert_eq!(res.dict[0].entries[1].reading, "ぶつ");

    // the pitch map holds the looked-up text, keyed by the matched reading
    assert_eq!(res.pitch.len(), 1);
    assert_eq!(res.pitch[0].0, "打つ");
    assert_eq!(res.pitch[0].1.len(), 1);
    assert_eq!(res.pitch[0].1[0].0, "うつ");
    let accents = &res.pitch[0].1[0].1.pitch_accents.0;
    assert_eq!(accents.len(), 3);
    assert_eq!(accents[0].position, 2);
    assert_eq!(accents[0].reading, "うつ");
    assert_eq!(accents[0].mora_count, 2);
}

#[test]
fn lookup_with_disabled_set_returns_a_subset() {
    let mut registry = YomitanDictionaries::new();
    let temp1 = tempfile::tempdir().unwrap();
    let first = term_dictionary(
        temp1.path().to_str().unwrap(),
        "A",
        "v1",
        r#"[["打つ","うつ","vt","v5",10,["a"],1,"P"]]"#,
    );
    registry.register_dictionary(first).unwrap();
    let temp2 = tempfile::tempdir().unwrap();
    let second = term_dictionary(
        temp2.path().to_str().unwrap(),
        "B",
        "v1",
        r#"[["打つ","ぶつ","vt","v5",10,["b"],1,"P"]]"#,
    );
    registry.register_dictionary(second).unwrap();

    let tokens = vec![surface_token("打つ")];
    let all = registry.lookup(&tokens, &empty_prefs()).unwrap();
    assert_eq!(all.dict.len(), 2);

    let mut prefs = empty_prefs();
    prefs.term_disabled_dictionaries.push("A#v1".to_string());
    let filtered = registry.lookup(&tokens, &prefs).unwrap();
    assert_eq!(filtered.dict.len(), 1);
    assert_eq!(filtered.dict[0].title, "B");
    // everything returned under the disabled set also came back before
    for dr in &filtered.dict {
        assert!(all.dict.iter().any(|o| o.title == dr.title
            && o.entries.len() == dr.entries.len()));
    }
}

#[test]
fn lookup_falls_back_from_katakana_to_hiragana() {
    let mut registry = YomitanDictionaries::new();
    let temp1 = tempfile::tempdir().unwrap();
    let dict = term_dictionary(
        temp1.path().to_str().unwrap(),
        "Kana",
        "v1",
        r#"[["うつ","うつ","vt","v5",10,["hira"],1,"P"]]"#,
    );
    registry.register_dictionary(dict).unwrap();

    // the all-katakana surface has no row of its own: its hiragana answers
    let tokens = vec![surface_token("ウツ")];
    let res = registry.lookup(&tokens, &empty_prefs()).unwrap();
    assert_eq!(res.dict.len(), 1);
    assert_eq!(res.dict[0].entries.len(), 1);
    assert_eq!(res.dict[0].entries[0].text, "うつ");

    // a direct katakana row answers first
    let mut registry = YomitanDictionaries::new();
    let temp2 = tempfile::tempdir().unwrap();
    let dict = term_dictionary(
        temp2.path().to_str().unwrap(),
        "Kana2",
        "v1",
        r#"[["ウツ","うつ","n","n",1,["kata"],1,"P"],
            ["うつ","うつ","vt","v5",10,["hira"],2,"P"]]"#,
    );
    registry.register_dictionary(dict).unwrap();
    let res = registry.lookup(&tokens, &empty_prefs()).unwrap();
    assert_eq!(res.dict[0].entries.len(), 1);
    assert_eq!(res.dict[0].entries[0].text, "ウツ");
}

#[test]
fn frequency_lookup_honors_disabled_set() {
    let mut registry = YomitanDictionaries::new();
    let temp1 = tempfile::tempdir().unwrap();
    let term_dict = term_dictionary(
        temp1.path().to_str().unwrap(),
        "T",
        "v1",
        r#"[["打つ","うつ","vt","v5",10,["d"],1,"P"]]"#,
    );
    registry.register_dictionary(term_dict).unwrap();
    let temp2 = tempfile::tempdir().unwrap();
    let freq_store = make_store(
        temp2.path().to_str().unwrap(),
        "term_meta_bank_",
        r#"[["打つ","freq",12]]"#,
        "F",
    );
    let freq_dict = YomitanDictionary {
        origin: "freq.zip".to_string(),
        index: index_for("F", "v1"),
        kanji_bank: None,
        kanji_meta_bank: None,
        tag_bank: None,
        term_bank: None,
        term_meta_bank: Some(freq_store),
    };
    registry.register_dictionary(freq_dict).unwrap();

    let tokens = vec![TokenFeature::from_feature_string("打つ", "動詞,*,*,*,*,*,打つ")];
    let res = registry.lookup(&tokens, &empty_prefs()).unwrap();
    assert_eq!(res.freq.len(), 1);
    assert_eq!(res.freq[0].0, "F#v1");
    assert_eq!(res.freq[0].1.len(), 1);
    assert_eq!(res.freq[0].1[0].term, "打つ");
    assert_eq!(res.freq[0].1[0].value, Some(12));

    let mut prefs = empty_prefs();
    prefs.freq_disabled_dictionaries.push("F#v1".to_string());
    let res = registry.lookup(&tokens, &prefs).unwrap();
    assert_eq!(res.freq.len(), 0);
}

#[test]
fn pitch_accents_count_morae_without_small_kana() {
    let pd = match parse(r#"["所業","pitch",{"pitches":[{"position":0}],"reading":"しょぎょう"}]"#) {
        v => jreader::term_meta_bank::decode_term_meta_entry(&v).unwrap(),
    };
    match pd.data {
        jreader::term_meta_bank::TermMetaData::Pitch(p) => {
            let accents = PitchAccents::from(&p);
            assert_eq!(accents.0.len(), 1);
            // しょぎょう has five characters and two small kana
            assert_eq!(accents.0[0].mora_count, 3);
            assert_eq!(accents.0[0].reading, "しょぎょう");
        }
        _ => panic!("expected pitch data"),
    }
}

#[test]
fn scan_actions_follow_the_rule() {
    // S5: an 11 MiB archive against a 10 MiB ceiling is filtered
    let action = scan_entry_action("big.zip", true, 11 * 1024 * 1024, Some(10), false);
    assert_eq!(action, ScanAction::SizeFiltered);
    let mut stats = ScanStats::new();
    stats.record_action(&action);
    assert_eq!(stats.size_filtered, 1);
    assert_eq!(stats.processed, 0);
    assert_eq!(stats.zip_files, 1);

    // a NFC filename is never renamed
    let action = scan_entry_action("ポケモン.zip", true, 100, Some(10), false);
    assert_eq!(action, ScanAction::Process { rename_needed: false });

    // a decomposed filename is renamed first
    let decomposed = "ホ\u{309a}ケモン.zip";
    let action = scan_entry_action(decomposed, true, 100, Some(10), false);
    assert_eq!(action, ScanAction::Process { rename_needed: true });
    let (full, stem) = normalized_archive_name(decomposed);
    assert_eq!(full, "ポケモン.zip");
    assert_eq!(stem.0, "ポケモン");

    // non-zip entries are ignored; existing destinations are skipped
    assert_eq!(scan_entry_action("読み物.txt", true, 1, None, false), ScanAction::Ignore);
    assert_eq!(scan_entry_action("a.zip", false, 1, None, false), ScanAction::Ignore);
    assert_eq!(scan_entry_action("a.zip", true, 1, None, true), ScanAction::SkipExisting);
}

fn build_archive() -> Vec<u8> {
    let cursor = std::io::Cursor::new(Vec::new());
    let mut writer = zip::ZipWriter::new(cursor);
    let options: zip::write::SimpleFileOptions = Default::default();
    writer.start_file("index.json", options).unwrap();
    writer
        .write_all(br#"{"title":"Test","revision":"v1","format":3,"sequenced":true}"#)
        .unwrap();
    writer.start_file("term_bank_1.json", options).unwrap();
    writer
        .write_all(
            r#"[["打","だ","n","n",1,["da def 1","da def 2"],1,"E1"],
                ["打","ダース","n abbr","n",1,["daasu def 1","daasu def 2"],2,"E1"]]"#
                .as_bytes(),
        )
        .unwrap();
    writer.start_file("styles.css", options).unwrap();
    writer.write_all(b"body {}").unwrap();
    writer.finish().unwrap().into_inner()
}

#[test]
fn process_archive_loads_shards_and_names_assets() {
    let bytes = build_archive();
    let mut zip = jreader::zip_store::open_zip(bytes).unwrap();
    let temp = tempfile::tempdir().unwrap();
    let dir = temp.path().to_str().unwrap();
    let mut progress = ProgressStateTable::new();
    let outcome = process_archive(&mut zip, dir, &mut progress, group_id()).unwrap();
    assert_eq!(outcome.index.title, "Test");
    assert_eq!(outcome.index.revision, "v1");
    assert_eq!(outcome.asset_names, vec!["styles.css".to_string()]);
    assert!(outcome.tag_store.is_none());
    assert!(outcome.term_meta_store.is_none());
    assert!(outcome.kanji_store.is_none());

    // S1: the returned term store holds both entries under their shared
    // key, in order
    let handed = outcome.term_store.expect("a term store was filled");
    let payload = handed.get("打").unwrap().unwrap();
    let expected = parse(
        r#"[["打","だ","n","n",1,["da def 1","da def 2"],1,"E1"],
            ["打","ダース","n abbr","n",1,["daasu def 1","daasu def 2"],2,"E1"]]"#,
    );
    assert_eq!(parse(&payload), expected);

    // the same rows are on disk for a fresh read-only handle
    let db = KvStore::open_ro(dir, "term_bank_").unwrap();
    let payload = db.get("打").unwrap().unwrap();
    let expected = parse(
        r#"[["打","だ","n","n",1,["da def 1","da def 2"],1,"E1"],
            ["打","ダース","n abbr","n",1,["daasu def 1","daasu def 2"],2,"E1"]]"#,
    );
    assert_eq!(parse(&payload), expected);

    // the archive is now registrable
    let index_text = r#"{"title":"Test","revision":"v1","format":3,"sequenced":true}"#;
    let dict = YomitanDictionary::open(dir, "Test.zip".to_string(), index_text).unwrap();
    let mut registry = YomitanDictionaries::new();
    assert_eq!(registry.register_dictionary(dict).unwrap(), DictionaryType::Term);
}

#[test]
fn process_archive_without_index_is_rejected() {
    let cursor = std::io::Cursor::new(Vec::new());
    let mut writer = zip::ZipWriter::new(cursor);
    let options: zip::write::SimpleFileOptions = Default::default();
    writer.start_file("term_bank_1.json", options).unwrap();
    writer.write_all(b"[]").unwrap();
    let bytes = writer.finish().unwrap().into_inner();
    let mut zip = jreader::zip_store::open_zip(bytes).unwrap();
    let temp = tempfile::tempdir().unwrap();
    let dir = temp.path().to_str().unwrap();
    let mut progress = ProgressStateTable::new();
    let err = match process_archive(&mut zip, dir, &mut progress, group_id()) {
        Ok(_) => panic!("an archive without an index must be rejected"),
        Err(e) => e,
    };
    assert_eq!(err.kind, ErrorKind::ArchiveFormat);
}

#[test]
fn analyze_tokens_builds_noun_compounds_longest_first() {
    let tokens = vec![
        jreader::tokens::RawToken { surface: "土木".to_string(), feature: "名詞".to_string() },
        jreader::tokens::RawToken { surface: "工事".to_string(), feature: "名詞".to_string() },
    ];
    let out = jreader::tokens::analyze_tokens(&tokens, 0);
    assert_eq!(out.len(), 2);
    assert_eq!(out[0].surface_form, Some("土木工事".to_string()));
    assert_eq!(out[0].dictionary_form, Some("土木工事".to_string()));
    assert_eq!(out[1].surface_form, Some("土木".to_string()));

    // a position past the text yields no candidates
    let out = jreader::tokens::analyze_tokens(&tokens, 10);
    assert_eq!(out.len(), 0);
}

#[test]
fn convert_layer_normalizes_readings() {
    let entry = jreader::term_bank::decode_term_entry(parse(
        r#"["打","ダース","n abbr","n",1,["daasu def 1"],2,"E1 P"]"#,
    ))
    .unwrap();
    let converted = jreader::convert::convert_term_entry(&entry);
    assert_eq!(converted.text, "打");
    assert_eq!(converted.reading, "だあす");
    assert_eq!(converted.tags, vec!["n".to_string(), "abbr".to_string()]);
    assert_eq!(converted.term_tags, vec!["E1".to_string(), "P".to_string()]);

    assert!(jreader::convert::is_admin_route("/api/scan-dicts"));
    assert!(!jreader::convert::is_admin_route("/api/lookup"));
}
