//! The change-detection ledger: which files were processed, and at which
//! modification time.

use crate::table::{
    distinct_keys, has_key, lemma_position_from, lemma_position_none, lemma_upsert, upsert_rows,
    value_of, Table,
};
use crate::text::{list_contains, str_equal, string_of};
use vstd::prelude::*;

verus! {

/// What the ledger records of one file.
#[derive(Debug, Clone, PartialEq, Eq)]
pub struct FileMetadata {
    /// Path of the file.
    pub file_path: String,
    /// Modification time of the file when it was last processed (ISO 8601).
    pub modified_at: String,
    /// When the file was last processed (ISO 8601).
    pub parsed_at: String,
}

/// Mathematical model of a [`FileMetadata`].
pub struct FileMetadataView {
    pub file_path: Seq<char>,
    pub modified_at: Seq<char>,
    pub parsed_at: Seq<char>,
}

impl DeepView for FileMetadata {
    type V = FileMetadataView;

    open spec fn deep_view(&self) -> FileMetadataView {
        FileMetadataView {
            file_path: self.file_path@,
            modified_at: self.modified_at@,
            parsed_at: self.parsed_at@,
        }
    }
}

/// A file that has to be processed.
#[derive(Debug, Clone, PartialEq, Eq)]
pub struct ModifiedFile {
    /// Path of the file.
    pub file_path: String,
    /// Modification time of the file as found.
    pub current_modified_at: String,
    /// Whether the ledger has no entry for the file.
    pub is_new: bool,
}

/// Mathematical model of a [`ModifiedFile`].
pub struct ModifiedFileView {
    pub file_path: Seq<char>,
    pub current_modified_at: Seq<char>,
    pub is_new: bool,
}

impl DeepView for ModifiedFile {
    type V = ModifiedFileView;

    open spec fn deep_view(&self) -> ModifiedFileView {
        ModifiedFileView {
            file_path: self.file_path@,
            current_modified_at: self.current_modified_at@,
            is_new: self.is_new,
        }
    }
}

/// A file found on discovery.
#[derive(Debug, Clone, PartialEq, Eq)]
pub struct DiscoveredFile {
    /// Path of the file.
    pub file_path: String,
    /// Modification time of the file (ISO 8601), or `None` where it could
    /// not be read.
    pub modified_at: Option<String>,
}

/// Mathematical model of a [`DiscoveredFile`].
pub struct DiscoveredFileView {
    pub file_path: Seq<char>,
    pub modified_at: Option<Seq<char>>,
}

impl DeepView for DiscoveredFile {
    type V = DiscoveredFileView;

    open spec fn deep_view(&self) -> DiscoveredFileView {
        DiscoveredFileView { file_path: self.file_path@, modified_at: self.modified_at.deep_view() }
    }
}

/// The two times that the ledger keeps for a file.
#[derive(Debug, Clone, PartialEq, Eq)]
pub struct FileTimes {
    pub modified_at: String,
    pub parsed_at: String,
}

/// Modification time and processing time of a ledger entry.
pub struct FileTimesView {
    pub modified_at: Seq<char>,
    pub parsed_at: Seq<char>,
}

impl DeepView for FileTimes {
    type V = FileTimesView;

    open spec fn deep_view(&self) -> FileTimesView {
        FileTimesView { modified_at: self.modified_at@, parsed_at: self.parsed_at@ }
    }
}

/// The entries of a ledger: paths with their times.
pub type LedgerRows = Seq<(Seq<char>, FileTimesView)>;

/// The ledger of processed files: at most one entry for each path.
pub struct Ledger {
    files: Table<FileTimes>,
}

/// The status of a discovered file against the ledger: `None` if it needs
/// no processing, because its modification time cannot be read or because
/// the ledger has it with the same modification time; otherwise the file,
/// marked new if the ledger has no entry for it, and modified if the stored
/// modification time differs from the current one.
pub open spec fn file_status(ledger: LedgerRows, file: DiscoveredFileView) -> Option<
    ModifiedFileView,
> {
    match file.modified_at {
        None => None,
        Some(current) => match value_of(ledger, file.file_path) {
            None => Some(
                ModifiedFileView {
                    file_path: file.file_path,
                    current_modified_at: current,
                    is_new: true,
                },
            ),
            Some(times) => if times.modified_at != current {
                Some(
                    ModifiedFileView {
                        file_path: file.file_path,
                        current_modified_at: current,
                        is_new: false,
                    },
                )
            } else {
                None
            },
        },
    }
}

/// The files among the first `k` discovered ones that need processing, in
/// the order of discovery.
pub open spec fn modified_files(
    ledger: LedgerRows,
    discovered: Seq<DiscoveredFileView>,
    k: int,
) -> Seq<ModifiedFileView>
    decreases k,
{
    if k <= 0 {
        Seq::empty()
    } else {
        match file_status(ledger, discovered[k - 1]) {
            Some(file) => modified_files(ledger, discovered, k - 1).push(file),
            None => modified_files(ledger, discovered, k - 1),
        }
    }
}

/// The ledger after the processing of a file is recorded.
pub open spec fn committed(
    ledger: LedgerRows,
    file_path: Seq<char>,
    modified_at: Seq<char>,
    parsed_at: Seq<char>,
) -> LedgerRows {
    upsert_rows(ledger, file_path, FileTimesView { modified_at, parsed_at })
}

/// The ledger after the first `k` files of a batch are recorded.
pub open spec fn committed_batch(
    ledger: LedgerRows,
    files: Seq<(Seq<char>, Seq<char>)>,
    parsed_at: Seq<char>,
    k: int,
) -> LedgerRows
    decreases k,
{
    if k <= 0 {
        ledger
    } else {
        committed(
            committed_batch(ledger, files, parsed_at, k - 1),
            files[k - 1].0,
            files[k - 1].1,
            parsed_at,
        )
    }
}

/// The entries whose path is among `existing`, in their order.
pub open spec fn without_stale(ledger: LedgerRows, existing: Seq<Seq<char>>) -> LedgerRows
    decreases ledger.len(),
{
    if ledger.len() == 0 {
        Seq::empty()
    } else if existing.contains(ledger.last().0) {
        without_stale(ledger.drop_last(), existing).push(ledger.last())
    } else {
        without_stale(ledger.drop_last(), existing)
    }
}

/// The entries of a ledger as records.
pub open spec fn metadata_of(ledger: LedgerRows) -> Seq<FileMetadataView> {
    Seq::new(
        ledger.len(),
        |i: int|
            FileMetadataView {
                file_path: ledger[i].0,
                modified_at: ledger[i].1.modified_at,
                parsed_at: ledger[i].1.parsed_at,
            },
    )
}

/// With an empty ledger every file whose modification time can be read is
/// new.
pub proof fn lemma_empty_ledger_all_new(file: DiscoveredFileView)
    requires
        file.modified_at is Some,
    ensures
        file_status(Seq::empty(), file) == Some(
            ModifiedFileView {
                file_path: file.file_path,
                current_modified_at: file.modified_at->0,
                is_new: true,
            },
        ),
{
}

/// A file that was just recorded with its current modification time needs
/// no processing.
pub proof fn lemma_committed_is_unchanged(
    ledger: LedgerRows,
    file_path: Seq<char>,
    modified_at: Seq<char>,
    parsed_at: Seq<char>,
)
    ensures
        file_status(
            committed(ledger, file_path, modified_at, parsed_at),
            DiscoveredFileView { file_path, modified_at: Some(modified_at) },
        ) is None,
{
    lemma_upsert(ledger, file_path, FileTimesView { modified_at, parsed_at }, file_path);
}

/// Classifying a set of files that are all unchanged, that is recorded with
/// their current modification time, finds nothing to process.
pub proof fn lemma_unchanged_files_need_nothing(
    ledger: LedgerRows,
    discovered: Seq<DiscoveredFileView>,
    k: int,
)
    requires
        0 <= k <= discovered.len(),
        forall|i: int|
            0 <= i < discovered.len() ==> match (#[trigger] discovered[i]).modified_at {
                Some(current) => value_of(ledger, discovered[i].file_path) matches Some(times)
                    && times.modified_at == current,
                None => true,
            },
    ensures
        modified_files(ledger, discovered, k).len() == 0,
    decreases k,
{
    if k > 0 {
        lemma_unchanged_files_need_nothing(ledger, discovered, k - 1);
        assert(file_status(ledger, discovered[k - 1]) is None);
    }
}

/// An entry that is kept by the purge is not among the kept entries before
/// it, when paths are distinct.
proof fn lemma_without_stale_keys(ledger: LedgerRows, existing: Seq<Seq<char>>, key: Seq<char>)
    requires
        forall|i: int| 0 <= i < ledger.len() ==> (#[trigger] ledger[i]).0 != key,
    ensures
        !has_key(without_stale(ledger, existing), key),
        without_stale(ledger, existing).len() <= ledger.len(),
    decreases ledger.len(),
{
    let kept = without_stale(ledger, existing);
    if ledger.len() > 0 {
        let front = ledger.drop_last();
        assert forall|i: int| 0 <= i < front.len() implies (#[trigger] front[i]).0 != key by {
            assert(front[i] == ledger[i]);
        }
        lemma_without_stale_keys(front, existing, key);
        let before = without_stale(front, existing);
        lemma_position_from(before, key, 0);
        assert forall|i: int| 0 <= i < kept.len() implies (#[trigger] kept[i]).0 != key by {
            if i < before.len() {
                assert(kept[i] == before[i]);
            } else {
                assert(kept[i] == ledger[ledger.len() - 1]);
            }
        }
    }
    lemma_position_none(kept, key);
}

impl Ledger {
    /// The entries of the ledger, in the order in which the paths were first
    /// recorded.
    pub closed spec fn view(&self) -> LedgerRows {
        self.files@
    }

    /// A ledger without entries.
    pub fn new() -> (ledger: Self)
        ensures
            ledger@ == LedgerRows::empty(),
    {
        Ledger { files: Table::new() }
    }

    /// Recalls that no path has two entries. Does nothing when run.
    pub fn paths_are_distinct(&self)
        ensures
            distinct_keys(self@),
    {
        self.files.keys_are_distinct();
    }
}

/// All entries of the ledger.
pub fn get_all_file_metadata(ledger: &Ledger) -> (entries: Vec<FileMetadata>)
    ensures
        entries.deep_view() == metadata_of(ledger@),
{
    let mut entries: Vec<FileMetadata> = Vec::new();
    let count = ledger.files.len();
    let mut i: usize = 0;
    while i < count
        invariant
            i <= count,
            count == ledger@.len(),
            entries.len() == i,
            forall|j: int|
                0 <= j < i ==> (#[trigger] entries@[j]).deep_view() == metadata_of(ledger@)[j],
        decreases count - i,
    {
        let times = ledger.files.value_at(i);
        entries.push(
            FileMetadata {
                file_path: string_of(ledger.files.key_at(i)),
                modified_at: times.modified_at.clone(),
                parsed_at: times.parsed_at.clone(),
            },
        );
        i += 1;
    }
    assert(entries.deep_view() =~= metadata_of(ledger@));
    entries
}

/// Whether the ledger has no entries, so that every file counts as new.
pub fn is_metadata_empty(ledger: &Ledger) -> (empty: bool)
    ensures
        empty == (ledger@.len() == 0),
{
    ledger.files.len() == 0
}

/// The status of one discovered file (see [`file_status`]).
fn classify_file(ledger: &Ledger, file: &DiscoveredFile) -> (status: Option<ModifiedFile>)
    ensures
        status.deep_view() == file_status(ledger@, file.deep_view()),
{
    match &file.modified_at {
        None => None,
        Some(current) => match ledger.files.get(file.file_path.as_str()) {
            None => Some(
                ModifiedFile {
                    file_path: file.file_path.clone(),
                    current_modified_at: current.clone(),
                    is_new: true,
                },
            ),
            Some(times) => {
                if !str_equal(times.modified_at.as_str(), current.as_str()) {
                    Some(
                        ModifiedFile {
                            file_path: file.file_path.clone(),
                            current_modified_at: current.clone(),
                            is_new: false,
                        },
                    )
                } else {
                    None
                }
            },
        },
    }
}

/// Classifies the discovered files against the ledger and returns those
/// that have to be processed, in the order of discovery.
///
/// A file is new if the ledger has no entry for it, and modified if the
/// recorded modification time differs from the current one, whichever is
/// the later; a file whose modification time could not be read is left out,
/// and so is one that is unchanged. With an empty ledger every readable
/// file is new.
pub fn get_modified_files(ledger: &Ledger, discovered: &[DiscoveredFile]) -> (files: Vec<
    ModifiedFile,
>)
    ensures
        files.deep_view() == modified_files(
            ledger@,
            discovered.deep_view(),
            discovered.len() as int,
        ),
{
    let mut files: Vec<ModifiedFile> = Vec::new();
    let mut k: usize = 0;
    assert(files.deep_view() =~= Seq::empty());
    while k < discovered.len()
        invariant
            k <= discovered.len(),
            files.deep_view() == modified_files(ledger@, discovered.deep_view(), k as int),
        decreases discovered.len() - k,
    {
        assert(discovered.deep_view()[k as int] == discovered@[k as int].deep_view());
        match classify_file(ledger, &discovered[k]) {
            Some(file) => {
                let ghost before = files.deep_view();
                files.push(file);
                assert(files.deep_view() =~= before.push(file.deep_view()));
            },
            None => {},
        }
        k += 1;
    }
    files
}

/// Records that the file at `file_path` was processed at `parsed_at` when
/// its modification time was `modified_at`, in place of any earlier entry
/// for the path.
pub fn update_file_metadata(
    ledger: &mut Ledger,
    file_path: &str,
    modified_at: &str,
    parsed_at: &str,
)
    ensures
        final(ledger)@ == committed(old(ledger)@, file_path@, modified_at@, parsed_at@),
{
    let times = FileTimes { modified_at: modified_at.to_owned(), parsed_at: parsed_at.to_owned() };
    ledger.files.upsert(file_path, times);
}

/// Records a batch of processed files, each a path with its modification
/// time, all at once.
pub fn update_file_metadata_batch(
    ledger: &mut Ledger,
    files: &[(String, String)],
    parsed_at: &str,
)
    ensures
        final(ledger)@ == committed_batch(
            old(ledger)@,
            files.deep_view(),
            parsed_at@,
            files.len() as int,
        ),
{
    let mut k: usize = 0;
    while k < files.len()
        invariant
            k <= files.len(),
            ledger@ == committed_batch(old(ledger)@, files.deep_view(), parsed_at@, k as int),
        decreases files.len() - k,
    {
        assert(files.deep_view()[k as int] == (files@[k as int].0@, files@[k as int].1@));
        update_file_metadata(ledger, files[k].0.as_str(), files[k].1.as_str(), parsed_at);
        k += 1;
    }
}

/// Purges the entries of files that no longer exist: keeps the entries
/// whose path is among `existing_files` and returns how many were removed.
pub fn remove_stale_metadata(ledger: &mut Ledger, existing_files: &[String]) -> (removed: usize)
    ensures
        final(ledger)@ == without_stale(old(ledger)@, existing_files.deep_view()),
        removed == old(ledger)@.len() - final(ledger)@.len(),
{
    let mut kept: Table<FileTimes> = Table::new();
    let ghost rows = ledger@;
    let ghost existing = existing_files.deep_view();
    let count = ledger.files.len();
    ledger.files.keys_are_distinct();
    let mut i: usize = 0;
    assert(rows.take(0) =~= Seq::empty());
    while i < count
        invariant
            i <= count,
            count == rows.len(),
            rows == ledger@,
            ledger@ == old(ledger)@,
            existing == existing_files.deep_view(),
            distinct_keys(rows),
            kept@ == without_stale(rows.take(i as int), existing),
        decreases count - i,
    {
        let key = ledger.files.key_at(i);
        proof {
            assert(rows.take(i + 1).drop_last() =~= rows.take(i as int));
            assert(rows.take(i + 1).last() == rows[i as int]);
        }
        if list_contains(existing_files, key) {
            let times = ledger.files.value_at(i);
            let copy = FileTimes {
                modified_at: times.modified_at.clone(),
                parsed_at: times.parsed_at.clone(),
            };
            let path = string_of(key);
            proof {
                assert forall|j: int| 0 <= j < rows.take(i as int).len() implies (
                #[trigger] rows.take(i as int)[j]).0 != key@ by {
                    assert(rows.take(i as int)[j] == rows[j]);
                }
                lemma_without_stale_keys(rows.take(i as int), existing, key@);
            }
            kept.upsert(path.as_str(), copy);
            assert(kept@ =~= without_stale(rows.take(i + 1), existing));
        }
        i += 1;
    }
    proof {
        assert(rows.take(count as int) =~= rows);
        lemma_without_stale_len(rows, existing);
    }
    let removed = count - kept.len();
    ledger.files = kept;
    removed
}

/// The purge never adds entries.
proof fn lemma_without_stale_len(ledger: LedgerRows, existing: Seq<Seq<char>>)
    ensures
        without_stale(ledger, existing).len() <= ledger.len(),
    decreases ledger.len(),
{
    if ledger.len() > 0 {
        lemma_without_stale_len(ledger.drop_last(), existing);
    }
}

/// Removes every entry, so that the next classification finds every file
/// new.
pub fn clear_all_metadata(ledger: &mut Ledger)
    ensures
        final(ledger)@ == LedgerRows::empty(),
{
    ledger.files.clear();
}

} // verus!
