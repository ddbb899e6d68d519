//! Archive ingestion: deciding what to do with each staged file, turning
//! one archive's shards into per-schema stores, and naming the static
//! assets for the surrounding program to copy.

use vstd::prelude::*;
use vstd::string::StringExecFns;

use crate::errors::{DictError, ErrorKind};
use crate::index::{index_of, index_valid, DictionaryIndex};
use crate::json::{json_of, json_view_seq, JsonV};
use crate::kv::{all_keyed, group_spec, grouped_rows, GroupedJSON, KvStore};
use crate::progress::{CreateTaskParams, ProgressGroupId, ProgressStateTable, ProgressTaskId, ProgressTaskType};
use crate::text::{ends_with_str, has_prefix, has_suffix, join_sep, nfc_normalize, nfc_of, split_on_char, split_sep, starts_with_str};
use crate::zip_store::{bytes_to_utf8, utf8_of, zip_entry_data, zip_file_names, zip_names, zip_read_entry};

verus! {

/// The NFC-normalized stem of an archive filename.
#[derive(Debug, Clone, PartialEq)]
pub struct NormalizedFilename(pub String);

/// The stem of a filename: everything before its last dot, empty when it
/// has no dot.
pub open spec fn stem_of(s: Seq<char>) -> Seq<char> {
    join_sep(split_sep(s, '.').drop_last(), '.')
}

/// Normalizes an archive filename: the whole name in NFC, and the NFC
/// stem that names the dictionary's directory. Normalizing is idempotent,
/// so a normalized tree is a fixpoint of ingestion's renaming.
pub fn normalized_archive_name(name: &str) -> (r: (String, NormalizedFilename))
    ensures
        r.0@ == nfc_of(name@),
        nfc_of(r.0@) == r.0@,
        r.1.0@ == stem_of(nfc_of(name@)),
{
    let full = nfc_normalize(name);
    let mut parts = split_on_char(full.as_str(), '.');
    proof {
        assert(parts.deep_view() =~= split_sep(full@, '.'));
    }
    parts.pop();
    proof {
        assert(parts.deep_view() =~= split_sep(full@, '.').drop_last());
    }
    let stem = crate::text::join_with_char(&parts, '.');
    (full, NormalizedFilename(stem))
}

/// What the scan does with one directory entry.
#[derive(Debug, PartialEq, Eq, Structural, Clone, Copy)]
pub enum ScanAction {
    /// Not a regular `.zip` file: passed over silently.
    Ignore,
    /// Larger than the configured ceiling: skipped and counted.
    SizeFiltered,
    /// Already ingested: extraction is skipped, registration still runs.
    SkipExisting,
    /// To be processed, renaming first when the name is not yet NFC.
    Process { rename_needed: bool },
}

/// The scan rule for one entry: only regular `.zip` files count; an
/// oversized file is filtered; an already-present destination is skipped;
/// anything else is processed, renamed first unless already NFC.
pub open spec fn scan_action_spec(
    name: Seq<char>,
    is_file: bool,
    size_bytes: int,
    max_size_mb: Option<int>,
    dest_exists: bool,
) -> ScanAction {
    if !is_file || !has_suffix(name, ".zip"@) {
        ScanAction::Ignore
    } else if match max_size_mb {
        Some(m) => size_bytes / (1024int * 1024) > m,
        None => false,
    } {
        ScanAction::SizeFiltered
    } else if dest_exists {
        ScanAction::SkipExisting
    } else {
        ScanAction::Process { rename_needed: nfc_of(name) != name }
    }
}

pub fn scan_entry_action(
    name: &str,
    is_file: bool,
    size_bytes: u64,
    max_size_mb: Option<u64>,
    dest_exists: bool,
) -> (r: ScanAction)
    ensures
        r == scan_action_spec(
            name@,
            is_file,
            size_bytes as int,
            match max_size_mb {
                Some(m) => Some(m as int),
                None => None,
            },
            dest_exists,
        ),
{
    if !is_file || !ends_with_str(name, ".zip") {
        return ScanAction::Ignore;
    }
    let filtered = match max_size_mb {
        Some(m) => size_bytes / (1024 * 1024) > m,
        None => false,
    };
    if filtered {
        return ScanAction::SizeFiltered;
    }
    if dest_exists {
        return ScanAction::SkipExisting;
    }
    let normalized = nfc_normalize(name);
    let rename_needed = !crate::text::str_eq(normalized.as_str(), name);
    ScanAction::Process { rename_needed }
}

/// A directory whose filenames are already NFC is a fixpoint of the scan:
/// no entry is ever renamed.
pub proof fn lemma_nfc_fixpoint(
    name: Seq<char>,
    is_file: bool,
    size_bytes: int,
    max_size_mb: Option<int>,
    dest_exists: bool,
)
    requires
        nfc_of(name) == name,
    ensures
        scan_action_spec(name, is_file, size_bytes, max_size_mb, dest_exists)
            != (ScanAction::Process { rename_needed: true }),
{
}

/// Counters of one scan over the staging directory.
#[derive(Debug, PartialEq, Eq, Structural, Clone, Copy)]
pub struct ScanStats {
    pub total_entries: u64,
    pub zip_files: u64,
    pub processed: u64,
    pub skipped: u64,
    pub size_filtered: u64,
    pub errors: u64,
}

impl ScanStats {
    pub fn new() -> (r: ScanStats)
        ensures
            r == (ScanStats {
                total_entries: 0u64,
                zip_files: 0u64,
                processed: 0u64,
                skipped: 0u64,
                size_filtered: 0u64,
                errors: 0u64,
            }),
    {
        ScanStats {
            total_entries: 0,
            zip_files: 0,
            processed: 0,
            skipped: 0,
            size_filtered: 0,
            errors: 0,
        }
    }

    /// Counts one scanned entry and the bucket its action falls in. A
    /// size-filtered archive counts as a zip file and as filtered, and
    /// never as processed.
    pub fn record_action(&mut self, action: &ScanAction)
        requires
            old(self).total_entries < u64::MAX,
            old(self).zip_files < u64::MAX,
            old(self).skipped < u64::MAX,
            old(self).size_filtered < u64::MAX,
        ensures
            final(self).total_entries == old(self).total_entries + 1,
            final(self).zip_files == old(self).zip_files + (if *action == ScanAction::Ignore {
                0int
            } else {
                1int
            }),
            final(self).size_filtered == old(self).size_filtered + (if *action
                == ScanAction::SizeFiltered {
                1int
            } else {
                0int
            }),
            final(self).skipped == old(self).skipped + (if *action == ScanAction::SkipExisting {
                1int
            } else {
                0int
            }),
            final(self).processed == old(self).processed,
            final(self).errors == old(self).errors,
    {
        self.total_entries = self.total_entries + 1;
        match action {
            ScanAction::Ignore => {},
            ScanAction::SizeFiltered => {
                self.zip_files = self.zip_files + 1;
                self.size_filtered = self.size_filtered + 1;
            },
            ScanAction::SkipExisting => {
                self.zip_files = self.zip_files + 1;
                self.skipped = self.skipped + 1;
            },
            ScanAction::Process { .. } => {
                self.zip_files = self.zip_files + 1;
            },
        }
    }

    pub fn record_processed(&mut self)
        requires
            old(self).processed < u64::MAX,
        ensures
            *final(self) == (ScanStats { processed: (old(self).processed + 1) as u64, ..*old(self) }),
    {
        self.processed = self.processed + 1;
    }

    pub fn record_error(&mut self)
        requires
            old(self).errors < u64::MAX,
        ensures
            *final(self) == (ScanStats { errors: (old(self).errors + 1) as u64, ..*old(self) }),
    {
        self.errors = self.errors + 1;
    }
}


/// The archive entry names that belong to one schema.
pub open spec fn prefix_names(names: Seq<Seq<char>>, prefix: Seq<char>) -> Seq<Seq<char>> {
    names.filter(|n: Seq<char>| has_prefix(n, prefix))
}

/// What one shard file holds: its bytes decoded as UTF-8 and parsed as a
/// JSON array.
pub open spec fn shard_items(
    z: zip::ZipArchive<std::io::Cursor<Vec<u8>>>,
    name: Seq<char>,
) -> Option<Seq<JsonV>> {
    match zip_entry_data(z, name) {
        Some(b) => match utf8_of(b) {
            Some(t) => match json_of(t) {
                Some(JsonV::Arr(items)) => Some(items),
                _ => None,
            },
            None => None,
        },
        None => None,
    }
}

/// The concatenation of the named shards' entries, in name order; any
/// unreadable or malformed shard poisons the whole merge.
pub open spec fn merged_of(
    z: zip::ZipArchive<std::io::Cursor<Vec<u8>>>,
    names: Seq<Seq<char>>,
) -> Option<Seq<JsonV>>
    decreases names.len(),
{
    if names.len() == 0 {
        Some(Seq::empty())
    } else {
        match (merged_of(z, names.drop_last()), shard_items(z, names.last())) {
            (Some(acc), Some(items)) => Some(acc + items),
            _ => None,
        }
    }
}

proof fn lemma_merged_prefix_none(
    z: zip::ZipArchive<std::io::Cursor<Vec<u8>>>,
    names: Seq<Seq<char>>,
    k: int,
)
    requires
        0 <= k <= names.len(),
        merged_of(z, names.take(k)) is None,
    ensures
        merged_of(z, names) is None,
    decreases names.len() - k,
{
    if k < names.len() {
        assert(names.take(k + 1).drop_last() =~= names.take(k));
        lemma_merged_prefix_none(z, names, k + 1);
    } else {
        assert(names.take(k) =~= names);
    }
}

/// Two archives with the same entries merge alike.
proof fn lemma_merged_congruence(
    z1: zip::ZipArchive<std::io::Cursor<Vec<u8>>>,
    z2: zip::ZipArchive<std::io::Cursor<Vec<u8>>>,
    names: Seq<Seq<char>>,
)
    requires
        forall|n: Seq<char>| zip_entry_data(z1, n) == zip_entry_data(z2, n),
    ensures
        merged_of(z1, names) == merged_of(z2, names),
    decreases names.len(),
{
    if names.len() > 0 {
        lemma_merged_congruence(z1, z2, names.drop_last());
    }
}


proof fn lemma_schema_ok_congruence(
    z1: zip::ZipArchive<std::io::Cursor<Vec<u8>>>,
    z2: zip::ZipArchive<std::io::Cursor<Vec<u8>>>,
    prefix: Seq<char>,
)
    requires
        zip_names(z1) == zip_names(z2),
        forall|n: Seq<char>| zip_entry_data(z1, n) == zip_entry_data(z2, n),
    ensures
        schema_ok(z1, prefix) == schema_ok(z2, prefix),
{
    lemma_merged_congruence(z1, z2, prefix_names(zip_names(z1), prefix));
}

proof fn lemma_schema_store_ok_congruence(
    z1: zip::ZipArchive<std::io::Cursor<Vec<u8>>>,
    z2: zip::ZipArchive<std::io::Cursor<Vec<u8>>>,
    prefix: Seq<char>,
    store: Option<KvStore>,
)
    requires
        zip_names(z1) == zip_names(z2),
        forall|n: Seq<char>| zip_entry_data(z1, n) == zip_entry_data(z2, n),
    ensures
        schema_store_ok(z1, prefix, store) == schema_store_ok(z2, prefix, store),
{
    lemma_merged_congruence(z1, z2, prefix_names(zip_names(z1), prefix));
}

/// The manifest an archive carries, decoded.
pub open spec fn index_of_archive(z: zip::ZipArchive<std::io::Cursor<Vec<u8>>>) -> Option<
    crate::index::DictionaryIndexV,
> {
    match zip_entry_data(z, "index.json"@) {
        Some(b) => match utf8_of(b) {
            Some(t) => match json_of(t) {
                Some(v) => index_of(v),
                None => None,
            },
            None => None,
        },
        None => None,
    }
}

/// One schema of an archive is loadable: its shards merge and every
/// merged entry has a string key.
pub open spec fn schema_ok(z: zip::ZipArchive<std::io::Cursor<Vec<u8>>>, prefix: Seq<char>) -> bool {
    match merged_of(z, prefix_names(zip_names(z), prefix)) {
        Some(es) => all_keyed(es),
        None => false,
    }
}

/// A well-formed archive: a valid decoded manifest and five loadable
/// schemas. Processing fails with a non-storage error only on archives
/// that are not well formed.
pub open spec fn archive_wf(z: zip::ZipArchive<std::io::Cursor<Vec<u8>>>) -> bool {
    &&& index_of_archive(z) is Some
    &&& index_valid(index_of_archive(z)->0)
    &&& schema_ok(z, "term_bank_"@)
    &&& schema_ok(z, "tag_bank_"@)
    &&& schema_ok(z, "term_meta_bank_"@)
    &&& schema_ok(z, "kanji_bank_"@)
    &&& schema_ok(z, "kanji_meta_bank_"@)
}

/// The store one schema leaves behind: none when the schema has no
/// entries, else a store whose rows end with exactly the grouped shards.
pub open spec fn schema_store_ok(
    z: zip::ZipArchive<std::io::Cursor<Vec<u8>>>,
    prefix: Seq<char>,
    store: Option<KvStore>,
) -> bool {
    match merged_of(z, prefix_names(zip_names(z), prefix)) {
        Some(es) => if es.len() == 0 {
            store is None
        } else {
            store matches Some(s) && s.rows().len() >= group_spec(es).len() && s.rows().skip(
                s.rows().len() - group_spec(es).len() as int,
            ) =~= grouped_rows(group_spec(es))
        },
        None => false,
    }
}

/// What processing one archive leaves for the surrounding program: the
/// validated manifest, the non-JSON entries to copy into the static tree,
/// and the progress task counting those copies.
pub struct IngestOutcome {
    pub index: DictionaryIndex,
    pub asset_names: Vec<String>,
    pub assets_task: ProgressTaskId,
    pub term_store: Option<KvStore>,
    pub tag_store: Option<KvStore>,
    pub term_meta_store: Option<KvStore>,
    pub kanji_store: Option<KvStore>,
    pub kanji_meta_store: Option<KvStore>,
}

fn read_entries_for_prefix(
    zip: &mut zip::ZipArchive<std::io::Cursor<Vec<u8>>>,
    prefix: &str,
    schema_name: &str,
    index: &DictionaryIndex,
    progress: &mut ProgressStateTable,
    group_id: ProgressGroupId,
) -> (r: Result<Vec<crate::json::JsonValue>, DictError>)
    requires
        old(progress)@.len() < u64::MAX,
    ensures
        final(progress)@.len() == old(progress)@.len() + 1,
        forall|j: int|
            0 <= j < old(progress)@.len() ==> final(progress)@[j] == old(progress)@[j],
        ({
            let task = final(progress)@[old(progress)@.len() as int];
            let count = prefix_names(zip_names(*old(zip)), prefix@).len() as int;
            &&& task.task_id == old(progress)@.len()
            &&& task.group_id == group_id.0
            &&& task.task_type == ProgressTaskType::MergeJson
            &&& task.dictionary_title == index.title@
            &&& task.dictionary_revision == index.revision@
            &&& task.schema_name == schema_name@
            &&& task.total == (if count <= i64::MAX {
                count
            } else {
                i64::MAX as int
            })
            &&& ((r is Ok && count <= i64::MAX) ==> task.current == count)
        }),
        zip_names(*final(zip)) == zip_names(*old(zip)),
        forall|n: Seq<char>| zip_entry_data(*final(zip), n) == zip_entry_data(*old(zip), n),
        match r {
            Ok(es) => merged_of(*old(zip), prefix_names(zip_names(*old(zip)), prefix@)) == Some(
                json_view_seq(es@),
            ),
            Err(e) => (e.kind == ErrorKind::ArchiveFormat || e.kind == ErrorKind::SchemaDecode)
                && merged_of(*old(zip), prefix_names(zip_names(*old(zip)), prefix@)) is None,
        },
{
    broadcast use vstd::prelude::Seq::lemma_filter_push;

    let names = zip_file_names(zip);
    let ghost namesv = zip_names(*zip);
    let mut matching: Vec<String> = Vec::new();
    let mut i: usize = 0;
    let n = names.len();
    while i < n
        invariant
            i <= n,
            n == names@.len(),
            names.deep_view() == namesv,
            matching.deep_view() =~= prefix_names(namesv.take(i as int), prefix@),
        decreases n - i,
    {
        proof {
            assert(namesv.take(i + 1).drop_last() =~= namesv.take(i as int));
            assert(namesv.take(i as int).push(namesv[i as int]) =~= namesv.take(i + 1));
            namesv.take(i as int).lemma_filter_push(
                namesv[i as int],
                |nn: Seq<char>| has_prefix(nn, prefix@),
            );
            assert(names@[i as int]@ == namesv[i as int]);
        }
        if starts_with_str(names[i].as_str(), prefix) {
            matching.push(names[i].clone());
            proof {
                assert(matching.deep_view() =~= prefix_names(namesv.take(i + 1), prefix@));
            }
        }
        i = i + 1;
    }
    proof {
        assert(namesv.take(n as int) =~= namesv);
    }
    let ghost pnames = prefix_names(namesv, prefix@);
    let task_id = progress.create_task(
        CreateTaskParams {
            task_type: ProgressTaskType::MergeJson,
            dictionary_title: index.title.clone(),
            dictionary_revision: index.revision.clone(),
            schema_name: Some(String::from_str(schema_name)),
            total: if matching.len() as u64 <= i64::MAX as u64 {
                matching.len() as i64
            } else {
                i64::MAX
            },
        },
        group_id,
    );
    let ghost tix = task_id.0 as int;
    let ghost task0 = progress@[tix];
    proof {
        assert(task0.dictionary_title == index.title@);
        assert(task0.dictionary_revision == index.revision@);
        assert(task0.schema_name == schema_name@);
    }
    let mut merged: Vec<crate::json::JsonValue> = Vec::new();
    let mut i: usize = 0;
    let mn = matching.len();
    while i < mn
        invariant
            i <= mn,
            mn == matching@.len(),
            matching.deep_view() == pnames,
            pnames == prefix_names(zip_names(*old(zip)), prefix@),
            zip_names(*zip) == zip_names(*old(zip)),
            forall|nn: Seq<char>| zip_entry_data(*zip, nn) == zip_entry_data(*old(zip), nn),
            progress@.len() == old(progress)@.len() + 1,
            tix == old(progress)@.len() as int,
            task_id.0 as int == tix,
            forall|j: int| 0 <= j < old(progress)@.len() ==> progress@[j] == old(progress)@[j],
            task0.current == 0,
            task0.task_id == tix,
            task0.group_id == group_id.0,
            task0.task_type == ProgressTaskType::MergeJson,
            task0.dictionary_title == index.title@,
            task0.dictionary_revision == index.revision@,
            task0.schema_name == schema_name@,
            task0.total == (if pnames.len() as int <= i64::MAX {
                pnames.len() as int
            } else {
                i64::MAX as int
            }),
            pnames.len() <= i64::MAX ==> progress@[tix] == (crate::progress::ProgressDataV {
                current: i as int,
                ..task0
            }),
            pnames.len() > i64::MAX ==> exists|c: int|
                progress@[tix] == (crate::progress::ProgressDataV { current: c, ..task0 }),
            merged_of(*old(zip), pnames.take(i as int)) == Some(json_view_seq(merged@)),
        decreases mn - i,
    {
        proof {
            assert(pnames.take(i + 1).drop_last() =~= pnames.take(i as int));
            assert(pnames.take(i + 1).last() == pnames[i as int]);
            assert(matching@[i as int]@ == pnames[i as int]);
        }
        let bytes = match zip_read_entry(zip, matching[i].as_str()) {
            Some(b) => b,
            None => {
                proof {
                    assert(zip_entry_data(*old(zip), pnames[i as int]) is None);
                    assert(shard_items(*old(zip), pnames[i as int]) is None);
                    assert(merged_of(*old(zip), pnames.take(i + 1)) is None);
                    lemma_merged_prefix_none(*old(zip), pnames, i + 1);
                }
                return Err(DictError {
                    kind: ErrorKind::ArchiveFormat,
                    message: String::from_str("a shard entry cannot be read"),
                });
            },
        };
        proof {
            assert(zip_entry_data(*old(zip), pnames[i as int]) == Some(bytes@));
        }
        let ghost bytesv = bytes@;
        let text = match bytes_to_utf8(bytes) {
            Some(t) => t,
            None => {
                proof {
                    assert(utf8_of(bytesv) is None);
                    assert(shard_items(*old(zip), pnames[i as int]) is None);
                    assert(merged_of(*old(zip), pnames.take(i + 1)) is None);
                    lemma_merged_prefix_none(*old(zip), pnames, i + 1);
                }
                return Err(DictError {
                    kind: ErrorKind::SchemaDecode,
                    message: String::from_str("a shard is not UTF-8"),
                });
            },
        };
        proof {
            assert(utf8_of(bytesv) == Some(text@));
        }
        let parsed = match crate::json::parse_json(text.as_str()) {
            Some(v) => v,
            None => {
                proof {
                    assert(shard_items(*old(zip), pnames[i as int]) is None);
                    assert(merged_of(*old(zip), pnames.take(i + 1)) is None);
                    lemma_merged_prefix_none(*old(zip), pnames, i + 1);
                }
                return Err(DictError {
                    kind: ErrorKind::SchemaDecode,
                    message: String::from_str("a shard is not valid JSON"),
                });
            },
        };
        let mut items = match parsed {
            crate::json::JsonValue::Arr(items) => items,
            other => {
                proof {
                    crate::json::lemma_arr_view(other);
                    assert(shard_items(*old(zip), pnames[i as int]) is None);
                    assert(merged_of(*old(zip), pnames.take(i + 1)) is None);
                    lemma_merged_prefix_none(*old(zip), pnames, i + 1);
                }
                return Err(DictError {
                    kind: ErrorKind::SchemaDecode,
                    message: String::from_str("a shard is not a JSON array"),
                });
            },
        };
        proof {
            crate::json::lemma_json_view_seq_index(items@);
            assert(shard_items(*old(zip), pnames[i as int]) == Some(json_view_seq(items@)));
            crate::json::lemma_json_view_seq_index(merged@);
        }
        let ghost before = merged@;
        merged.append(&mut items);
        proof {
            crate::json::lemma_json_view_seq_index(merged@);
            assert(json_view_seq(merged@) =~= json_view_seq(before) + json_view_seq(
                merged@.skip(before.len() as int),
            )) by {
                crate::json::lemma_json_view_seq_index(merged@.skip(before.len() as int));
            }
            assert(merged_of(*old(zip), pnames.take(i + 1)) == Some(json_view_seq(merged@)));
        }
        progress.increment(&task_id, 1);
        i = i + 1;
    }
    proof {
        assert(pnames.take(mn as int) =~= pnames);
    }
    Ok(merged)
}

fn process_schema(
    zip: &mut zip::ZipArchive<std::io::Cursor<Vec<u8>>>,
    dict_dir: &str,
    prefix: &str,
    schema_name: &str,
    index: &DictionaryIndex,
    progress: &mut ProgressStateTable,
    group_id: ProgressGroupId,
) -> (r: Result<Option<KvStore>, DictError>)
    requires
        old(progress)@.len() + 2 <= u64::MAX,
    ensures
        old(progress)@.len() + 1 <= final(progress)@.len() <= old(progress)@.len() + 2,
        zip_names(*final(zip)) == zip_names(*old(zip)),
        forall|n: Seq<char>| zip_entry_data(*final(zip), n) == zip_entry_data(*old(zip), n),
        match r {
            Ok(store) => schema_store_ok(*old(zip), prefix@, store),
            Err(e) => {
                &&& (e.kind == ErrorKind::ArchiveFormat || e.kind == ErrorKind::SchemaDecode
                    || e.kind == ErrorKind::Storage)
                &&& (e.kind != ErrorKind::Storage ==> !schema_ok(*old(zip), prefix@))
            },
        },
{
    let ghost pnames = prefix_names(zip_names(*old(zip)), prefix@);
    let entries = match read_entries_for_prefix(
        zip,
        prefix,
        schema_name,
        index,
        progress,
        group_id,
    ) {
        Ok(es) => es,
        Err(e) => {
            return Err(e);
        },
    };
    let ghost merged = json_view_seq(entries@);
    if entries.len() == 0 {
        proof {
            crate::json::lemma_json_view_seq_index(entries@);
            assert(merged.len() == 0);
        }
        return Ok(None);
    }
    let grouped = match GroupedJSON::from_json(&entries) {
        Ok(g) => g,
        Err(e) => {
            return Err(e);
        },
    };
    if grouped.0.len() as u64 > i64::MAX as u64 {
        return Err(DictError {
            kind: ErrorKind::Storage,
            message: String::from_str("too many keys for one store"),
        });
    }
    let mut store = match KvStore::open_rw(dict_dir, prefix) {
        Ok(s) => s,
        Err(e) => {
            return Err(e);
        },
    };
    proof {
        assert(grouped@.len() == grouped.0@.len());
    }
    let ghost rows0 = store.rows();
    match store.insert_all(
        &grouped,
        progress,
        index.title.clone(),
        index.revision.clone(),
        Some(String::from_str(schema_name)),
        group_id,
    ) {
        Ok(()) => {
            proof {
                crate::json::lemma_json_view_seq_index(entries@);
                assert(merged.len() > 0);
                assert(store.rows() =~= rows0 + grouped_rows(group_spec(merged)));
                assert(store.rows().len() >= group_spec(merged).len());
                assert(store.rows().skip(
                    store.rows().len() - group_spec(merged).len() as int,
                ) =~= grouped_rows(group_spec(merged)));
            }
            Ok(Some(store))
        },
        Err(e) => Err(e),
    }
}

/// Processes one opened archive into a dictionary directory: decodes and
/// validates the manifest, loads each of the five schemas into its store,
/// and names the non-JSON entries for the asset copy, under one progress
/// group. A non-storage failure means the archive itself is not well
/// formed; on success each returned store ends with exactly its schema's
/// grouped shard entries.
pub fn process_archive(
    zip: &mut zip::ZipArchive<std::io::Cursor<Vec<u8>>>,
    dict_dir: &str,
    progress: &mut ProgressStateTable,
    group_id: ProgressGroupId,
) -> (r: Result<IngestOutcome, DictError>)
    requires
        old(progress)@.len() + 16 <= u64::MAX,
    ensures
        match r {
            Ok(o) => {
                &&& index_of_archive(*old(zip)) == Some(o.index@)
                &&& index_valid(o.index@)
                &&& schema_store_ok(*old(zip), "term_bank_"@, o.term_store)
                &&& schema_store_ok(*old(zip), "tag_bank_"@, o.tag_store)
                &&& schema_store_ok(*old(zip), "term_meta_bank_"@, o.term_meta_store)
                &&& schema_store_ok(*old(zip), "kanji_bank_"@, o.kanji_store)
                &&& schema_store_ok(*old(zip), "kanji_meta_bank_"@, o.kanji_meta_store)
                &&& o.asset_names.deep_view() =~= zip_names(*old(zip)).filter(
                    |nm: Seq<char>| !has_suffix(nm, ".json"@) && !has_suffix(nm, "/"@),
                )
                &&& o.assets_task.0 < final(progress)@.len()
                &&& ({
                    let task = final(progress)@[o.assets_task.0 as int];
                    &&& task.task_type == ProgressTaskType::CopyStaticAssets
                    &&& task.group_id == group_id.0
                    &&& task.dictionary_title == o.index.title@
                    &&& task.dictionary_revision == o.index.revision@
                    &&& task.current == 0
                    &&& (o.asset_names@.len() <= i64::MAX ==> task.total == o.asset_names@.len())
                })
            },
            Err(e) => {
                &&& (e.kind == ErrorKind::ArchiveFormat || e.kind == ErrorKind::SchemaDecode
                    || e.kind == ErrorKind::Storage)
                &&& (e.kind != ErrorKind::Storage ==> !archive_wf(*old(zip)))
            },
        },
{
    broadcast use vstd::prelude::Seq::lemma_filter_push;

    let index_bytes = match zip_read_entry(zip, "index.json") {
        Some(b) => b,
        None => {
            return Err(DictError {
                kind: ErrorKind::ArchiveFormat,
                message: String::from_str("the archive has no readable index manifest"),
            });
        },
    };
    let ghost ibytes = index_bytes@;
    proof {
        assert(zip_entry_data(*old(zip), "index.json"@) == Some(ibytes));
    }
    let index_text = match bytes_to_utf8(index_bytes) {
        Some(t) => t,
        None => {
            return Err(DictError {
                kind: ErrorKind::SchemaDecode,
                message: String::from_str("the index manifest is not UTF-8"),
            });
        },
    };
    let parsed = match crate::json::parse_json(index_text.as_str()) {
        Some(v) => v,
        None => {
            return Err(DictError {
                kind: ErrorKind::SchemaDecode,
                message: String::from_str("the index manifest is not valid JSON"),
            });
        },
    };
    let index = match crate::index::decode_index(&parsed) {
        Some(ix) => ix,
        None => {
            return Err(DictError {
                kind: ErrorKind::SchemaDecode,
                message: String::from_str("the index manifest has an unexpected shape"),
            });
        },
    };
    if let Err(e) = index.validate() {
        return Err(DictError { kind: ErrorKind::SchemaDecode, message: e });
    }
    proof {
        assert(index_of_archive(*old(zip)) == Some(index@));
    }
    let ghost zb_term_store = *zip;
    let term_store = match process_schema(
        zip,
        dict_dir,
        "term_bank_",
        "Term Bank",
        &index,
        progress,
        group_id,
    ) {
        Ok(st) => {
            proof {
                lemma_schema_store_ok_congruence(zb_term_store, *old(zip), "term_bank_"@, st);
            }
            st
        },
        Err(e) => {
            proof {
                if e.kind != ErrorKind::Storage {
                    lemma_schema_ok_congruence(zb_term_store, *old(zip), "term_bank_"@);
                }
            }
            return Err(e);
        },
    };
    let ghost zb_tag_store = *zip;
    let tag_store = match process_schema(
        zip,
        dict_dir,
        "tag_bank_",
        "Tag Bank",
        &index,
        progress,
        group_id,
    ) {
        Ok(st) => {
            proof {
                lemma_schema_store_ok_congruence(zb_tag_store, *old(zip), "tag_bank_"@, st);
            }
            st
        },
        Err(e) => {
            proof {
                if e.kind != ErrorKind::Storage {
                    lemma_schema_ok_congruence(zb_tag_store, *old(zip), "tag_bank_"@);
                }
            }
            return Err(e);
        },
    };
    let ghost zb_term_meta_store = *zip;
    let term_meta_store = match process_schema(
        zip,
        dict_dir,
        "term_meta_bank_",
        "Term Meta Bank",
        &index,
        progress,
        group_id,
    ) {
        Ok(st) => {
            proof {
                lemma_schema_store_ok_congruence(zb_term_meta_store, *old(zip), "term_meta_bank_"@, st);
            }
            st
        },
        Err(e) => {
            proof {
                if e.kind != ErrorKind::Storage {
                    lemma_schema_ok_congruence(zb_term_meta_store, *old(zip), "term_meta_bank_"@);
                }
            }
            return Err(e);
        },
    };
    let ghost zb_kanji_store = *zip;
    let kanji_store = match process_schema(
        zip,
        dict_dir,
        "kanji_bank_",
        "Kanji Bank",
        &index,
        progress,
        group_id,
    ) {
        Ok(st) => {
            proof {
                lemma_schema_store_ok_congruence(zb_kanji_store, *old(zip), "kanji_bank_"@, st);
            }
            st
        },
        Err(e) => {
            proof {
                if e.kind != ErrorKind::Storage {
                    lemma_schema_ok_congruence(zb_kanji_store, *old(zip), "kanji_bank_"@);
                }
            }
            return Err(e);
        },
    };
    let ghost zb_kanji_meta_store = *zip;
    let kanji_meta_store = match process_schema(
        zip,
        dict_dir,
        "kanji_meta_bank_",
        "Kanji Meta Bank",
        &index,
        progress,
        group_id,
    ) {
        Ok(st) => {
            proof {
                lemma_schema_store_ok_congruence(zb_kanji_meta_store, *old(zip), "kanji_meta_bank_"@, st);
            }
            st
        },
        Err(e) => {
            proof {
                if e.kind != ErrorKind::Storage {
                    lemma_schema_ok_congruence(zb_kanji_meta_store, *old(zip), "kanji_meta_bank_"@);
                }
            }
            return Err(e);
        },
    };
    // everything that is not JSON and not a directory is a static asset
    let names = zip_file_names(zip);
    let ghost nview = zip_names(*zip);
    let mut asset_names: Vec<String> = Vec::new();
    let n = names.len();
    let mut i: usize = 0;
    while i < n
        invariant
            i <= n,
            n == names@.len(),
            names.deep_view() == nview,
            nview == zip_names(*zip),
            zip_names(*zip) == zip_names(*old(zip)),
            asset_names.deep_view() =~= nview.take(i as int).filter(
                |nm: Seq<char>| !has_suffix(nm, ".json"@) && !has_suffix(nm, "/"@),
            ),
        decreases n - i,
    {
        proof {
            assert(nview.take(i + 1).drop_last() =~= nview.take(i as int));
            assert(nview.take(i as int).push(nview[i as int]) =~= nview.take(i + 1));
            nview.take(i as int).lemma_filter_push(
                nview[i as int],
                |nm: Seq<char>| !has_suffix(nm, ".json"@) && !has_suffix(nm, "/"@),
            );
            assert(names@[i as int]@ == nview[i as int]);
        }
        if !ends_with_str(names[i].as_str(), ".json") && !ends_with_str(names[i].as_str(), "/") {
            asset_names.push(names[i].clone());
            proof {
                assert(asset_names.deep_view() =~= nview.take(i + 1).filter(
                    |nm: Seq<char>| !has_suffix(nm, ".json"@) && !has_suffix(nm, "/"@),
                ));
            }
        }
        i = i + 1;
    }
    proof {
        assert(nview.take(n as int) =~= nview);
    }
    let total: i64 = if asset_names.len() as u64 <= i64::MAX as u64 {
        asset_names.len() as i64
    } else {
        i64::MAX
    };
    let assets_task = progress.create_task(
        CreateTaskParams {
            task_type: ProgressTaskType::CopyStaticAssets,
            dictionary_title: index.title.clone(),
            dictionary_revision: index.revision.clone(),
            schema_name: None,
            total,
        },
        group_id,
    );
    Ok(IngestOutcome {
        index,
        asset_names,
        assets_task,
        term_store,
        tag_store,
        term_meta_store,
        kanji_store,
        kanji_meta_store,
    })
}

} // verus!
