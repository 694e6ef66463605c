//! The index's record of which files were indexed, with what content and
//! which chunks.
use vstd::prelude::*;
use vstd::string::StringSliceAdditionalSpecFns;
use crate::graph::strs;
use crate::hashing::{bytes_of, hex_lower, sha256, sha256_hex};
use crate::models::{FileMetadata, IndexMetadata};
use crate::text::{append, chars_of, decimal, decimal_exec, string_of};

verus! {

/// A file entry: path, content hash, time of the update, chunk ids.
pub type EntryView = (Seq<char>, Seq<char>, u64, Seq<Seq<char>>);

pub open spec fn entry_view(f: FileMetadata) -> EntryView {
    (f.path@, f.content_hash@, f.last_modified, strs(f.chunk_ids@))
}

pub open spec fn entry_views(v: Seq<FileMetadata>) -> Seq<EntryView> {
    v.map_values(|f: FileMetadata| entry_view(f))
}

/// The first entry, among the first `n`, for `path`.
pub open spec fn entry_for(fs: Seq<EntryView>, path: Seq<char>, n: int) -> Option<int>
    decreases n,
{
    if n <= 0 {
        None
    } else {
        match entry_for(fs, path, n - 1) {
            Some(i) => Some(i),
            None => if fs[n - 1].0 == path {
                Some(n - 1)
            } else {
                None
            },
        }
    }
}

/// The entries after recording `path` with `hash` and `ids` at time `ts`:
/// its first entry is updated in place, or a new entry comes last.
pub open spec fn update_spec(fs: Seq<EntryView>, path: Seq<char>, hash: Seq<char>, ids: Seq<Seq<char>>, ts: u64) -> Seq<
    EntryView,
> {
    match entry_for(fs, path, fs.len() as int) {
        Some(i) => fs.update(i, (path, hash, ts, ids)),
        None => fs.push((path, hash, ts, ids)),
    }
}

pub proof fn lemma_entry_for(fs: Seq<EntryView>, path: Seq<char>, n: int)
    requires
        0 <= n <= fs.len(),
    ensures
        match entry_for(fs, path, n) {
            Some(i) => 0 <= i < n && fs[i].0 == path,
            None => forall|j: int| 0 <= j < n ==> (#[trigger] fs[j]).0 != path,
        },
    decreases n,
{
    if n > 0 {
        lemma_entry_for(fs, path, n - 1);
    }
}

pub proof fn lemma_entry_for_stays(fs: Seq<EntryView>, path: Seq<char>, n: int)
    requires
        0 <= n <= fs.len(),
        entry_for(fs, path, n) is Some,
    ensures
        entry_for(fs, path, fs.len() as int) == entry_for(fs, path, n),
    decreases fs.len() - n,
{
    if n < fs.len() {
        lemma_entry_for_stays(fs, path, n + 1);
    }
}

/// Calls `SystemTime::now` and `SystemTime::duration_since(UNIX_EPOCH)`:
/// whole seconds since the Unix epoch, or 0 for a clock set before it.
/// Nothing is stated of the value: it is the time.
#[verifier::external_body]
fn current_ts() -> u64 {
    std::time::SystemTime::now().duration_since(std::time::UNIX_EPOCH).map(|d| d.as_secs()).unwrap_or(0)
}

/// Keeps the index's file records.
pub struct IndexManager;

impl IndexManager {
    /// The SHA-256 of a text's UTF-8 bytes, as lower-case hex.
    pub fn compute_hash(content: &str) -> (h: String)
        ensures
            h@ == hex_lower(sha256(content.spec_bytes())),
    {
        let b = bytes_of(content);
        sha256_hex(b.as_slice())
    }

    /// Records `path` with `content_hash` and `chunk_ids` at time `ts`.
    pub fn update_file_entry_at(
        metadata: &mut IndexMetadata,
        path: &str,
        content_hash: String,
        chunk_ids: Vec<String>,
        ts: u64,
    )
        ensures
            final(metadata).version == old(metadata).version,
            entry_views(final(metadata).files@) == update_spec(
                entry_views(old(metadata).files@),
                path@,
                content_hash@,
                strs(chunk_ids@),
                ts,
            ),
    {
        let ghost fs = entry_views(metadata.files@);
        let mut i: usize = 0;
        while i < metadata.files.len()
            invariant
                0 <= i <= metadata.files.len(),
                fs == entry_views(metadata.files@),
                metadata.files@ == old(metadata).files@,
                metadata.version == old(metadata).version,
                entry_for(fs, path@, i as int) is None,
            decreases metadata.files.len() - i,
        {
            let pc = crate::text::chars_of(path);
            let ec = crate::text::chars_of(metadata.files[i].path.as_str());
            if crate::text::seq_eq(ec.as_slice(), pc.as_slice()) {
                proof {
                    assert(entry_for(fs, path@, i + 1) == Some(i as int));
                    lemma_entry_for_stays(fs, path@, i + 1);
                }
                let entry = FileMetadata {
                    path: metadata.files[i].path.clone(),
                    content_hash,
                    last_modified: ts,
                    chunk_ids,
                };
                metadata.files.set(i, entry);
                assert(entry_views(metadata.files@) =~= fs.update(i as int, (path@, content_hash@, ts, strs(chunk_ids@))));
                return;
            }
            i = i + 1;
        }
        let entry = FileMetadata {
            path: crate::text::string_of(crate::text::chars_of(path).as_slice()),
            content_hash,
            last_modified: ts,
            chunk_ids,
        };
        metadata.files.push(entry);
        assert(entry_views(metadata.files@) =~= fs.push((path@, content_hash@, ts, strs(chunk_ids@))));
    }

    /// Records `path` with `content_hash` and `chunk_ids` at the current
    /// time.
    pub fn update_file_entry(metadata: &mut IndexMetadata, path: &str, content_hash: String, chunk_ids: Vec<String>)
        ensures
            final(metadata).version == old(metadata).version,
            exists|ts: u64|
                entry_views(final(metadata).files@) == update_spec(
                    entry_views(old(metadata).files@),
                    path@,
                    content_hash@,
                    strs(chunk_ids@),
                    ts,
                ),
    {
        let ts = current_ts();
        Self::update_file_entry_at(metadata, path, content_hash, chunk_ids, ts);
    }
}

/// Recording a file never loses another file's entry, and leaves exactly
/// one entry for it when there was at most one.
pub proof fn law_update_entry(fs: Seq<EntryView>, path: Seq<char>, hash: Seq<char>, ids: Seq<Seq<char>>, ts: u64)
    ensures
        forall|i: int|
            0 <= i < fs.len() && fs[i].0 != path ==> update_spec(fs, path, hash, ids, ts)[i] == fs[i],
        entry_for(update_spec(fs, path, hash, ids, ts), path, update_spec(fs, path, hash, ids, ts).len() as int) matches Some(
            k,
        ) && update_spec(fs, path, hash, ids, ts)[k] == (path, hash, ts, ids),
{
    lemma_entry_for(fs, path, fs.len() as int);
    let r = update_spec(fs, path, hash, ids, ts);
    lemma_entry_for(r, path, r.len() as int);
    match entry_for(fs, path, fs.len() as int) {
        Some(i) => {
            assert(r[i].0 == path);
            assert(entry_for(r, path, i + 1) == Some(i)) by {
                lemma_entry_for(fs, path, i);
                assert forall|j: int| 0 <= j < i implies (#[trigger] r[j]).0 != path by {
                    assert(r[j] == fs[j]);
                    lemma_first_before(fs, path, i, j);
                }
                lemma_entry_for_prefix_none(r, path, i);
            }
            lemma_entry_for_stays(r, path, i + 1);
        },
        None => {
            let m = fs.len() as int;
            assert(r[m].0 == path);
            assert forall|j: int| 0 <= j < m implies (#[trigger] r[j]).0 != path by {
                assert(r[j] == fs[j]);
            }
            lemma_entry_for_prefix_none(r, path, m);
            assert(entry_for(r, path, m + 1) == Some(m));
        },
    }
}

pub proof fn lemma_entry_for_prefix_none(fs: Seq<EntryView>, path: Seq<char>, n: int)
    requires
        0 <= n <= fs.len(),
        forall|j: int| 0 <= j < n ==> (#[trigger] fs[j]).0 != path,
    ensures
        entry_for(fs, path, n) is None,
    decreases n,
{
    if n > 0 {
        lemma_entry_for_prefix_none(fs, path, n - 1);
    }
}

pub proof fn lemma_first_before(fs: Seq<EntryView>, path: Seq<char>, i: int, j: int)
    requires
        0 <= j < i <= fs.len(),
        entry_for(fs, path, fs.len() as int) == Some(i),
    ensures
        fs[j].0 != path,
{
    lemma_entry_for(fs, path, i);
    if entry_for(fs, path, i) is Some {
        lemma_entry_for_stays(fs, path, i);
    }
}

/// How a scanned file stands against the index.
#[derive(Clone, Copy, Debug, PartialEq, Eq, Structural)]
pub enum FileChange {
    /// The index has no entry for it.
    New,
    /// Its first entry records another hash.
    Updated,
    /// Its first entry records the same hash.
    Unchanged,
}

/// How a scanned file with content hash `hash` stands against the entries.
pub open spec fn change_of(fs: Seq<EntryView>, path: Seq<char>, hash: Seq<char>) -> FileChange {
    match entry_for(fs, path, fs.len() as int) {
        None => FileChange::New,
        Some(i) => if fs[i].1 == hash {
            FileChange::Unchanged
        } else {
            FileChange::Updated
        },
    }
}

/// The first `n` scanned files that must be parsed: new or changed ones, in
/// scan order.
pub open spec fn to_parse(fs: Seq<EntryView>, scanned: Seq<(Seq<char>, Seq<char>)>, n: int) -> Seq<Seq<char>>
    decreases n,
{
    if n <= 0 {
        seq![]
    } else {
        let prev = to_parse(fs, scanned, n - 1);
        if change_of(fs, scanned[n - 1].0, scanned[n - 1].1) == FileChange::Unchanged {
            prev
        } else {
            prev.push(scanned[n - 1].0)
        }
    }
}

/// How many of the first `n` scanned files stand as `c`.
pub open spec fn count_of(fs: Seq<EntryView>, scanned: Seq<(Seq<char>, Seq<char>)>, c: FileChange, n: int) -> nat
    decreases n,
{
    if n <= 0 {
        0
    } else {
        count_of(fs, scanned, c, n - 1) + if change_of(fs, scanned[n - 1].0, scanned[n - 1].1) == c {
            1nat
        } else {
            0nat
        }
    }
}

/// Whether `path` is among the scanned paths.
pub open spec fn scanned_has(scanned: Seq<Seq<char>>, path: Seq<char>) -> bool {
    exists|k: int| 0 <= k < scanned.len() && scanned[k] == path
}

/// The paths of the first `n` entries whose files the scan did not find, in
/// the entries' order.
pub open spec fn gone(fs: Seq<EntryView>, scanned: Seq<Seq<char>>, n: int) -> Seq<Seq<char>>
    decreases n,
{
    if n <= 0 {
        seq![]
    } else {
        let prev = gone(fs, scanned, n - 1);
        if scanned_has(scanned, fs[n - 1].0) {
            prev
        } else {
            prev.push(fs[n - 1].0)
        }
    }
}

/// What an indexing run does: the files to parse, the indexed files that
/// are gone, and how many files are new, updated, unchanged and removed.
pub struct IndexPlan {
    pub parse: Vec<String>,
    pub removed: Vec<String>,
    pub new_files: usize,
    pub updated_files: usize,
    pub skipped_files: usize,
    pub removed_files: usize,
}

pub open spec fn pair_strs(v: Seq<(String, String)>) -> Seq<(Seq<char>, Seq<char>)> {
    v.map_values(|p: (String, String)| (p.0@, p.1@))
}

fn first_entry(files: &Vec<FileMetadata>, path: &str) -> (r: Option<usize>)
    ensures
        match r {
            Some(i) => entry_for(entry_views(files@), path@, files@.len() as int) == Some(i as int),
            None => entry_for(entry_views(files@), path@, files@.len() as int) is None,
        },
{
    let ghost fs = entry_views(files@);
    let pc = crate::text::chars_of(path);
    let mut i: usize = 0;
    while i < files.len()
        invariant
            0 <= i <= files.len(),
            fs == entry_views(files@),
            pc@ == path@,
            entry_for(fs, path@, i as int) is None,
        decreases files.len() - i,
    {
        let ec = crate::text::chars_of(files[i].path.as_str());
        if crate::text::seq_eq(ec.as_slice(), pc.as_slice()) {
            proof {
                assert(entry_for(fs, path@, i + 1) == Some(i as int));
                lemma_entry_for_stays(fs, path@, i + 1);
            }
            return Some(i);
        }
        i = i + 1;
    }
    None
}

fn is_scanned(scanned: &Vec<String>, path: &String) -> (b: bool)
    ensures
        b == scanned_has(strs(scanned@), path@),
{
    let ghost sv = strs(scanned@);
    let mut k: usize = 0;
    while k < scanned.len()
        invariant
            0 <= k <= scanned.len(),
            sv == strs(scanned@),
            forall|t: int| 0 <= t < k ==> sv[t] != path@,
        decreases scanned.len() - k,
    {
        assert(sv[k as int] == scanned@[k as int]@);
        if crate::graph::string_eq(&scanned[k], path) {
            return true;
        }
        k = k + 1;
    }
    false
}

/// Decides what an indexing run does. `scanned` holds the paths that the
/// scan found and `read` the path and content hash of each of them whose
/// contents could be read. A read file is parsed exactly when the index has
/// no entry for it or its hash differs; the indexed files that the scan did
/// not find are removed. A file that was found but not read is neither
/// parsed, counted nor removed.
pub fn plan_index(previous: &IndexMetadata, scanned: &Vec<String>, read: &Vec<(String, String)>) -> (p: IndexPlan)
    ensures
        strs(p.parse@) == to_parse(entry_views(previous.files@), pair_strs(read@), read@.len() as int),
        strs(p.removed@) == gone(entry_views(previous.files@), strs(scanned@), previous.files@.len() as int),
        p.new_files == count_of(entry_views(previous.files@), pair_strs(read@), FileChange::New, read@.len() as int),
        p.updated_files == count_of(entry_views(previous.files@), pair_strs(read@), FileChange::Updated, read@.len() as int),
        p.skipped_files == count_of(entry_views(previous.files@), pair_strs(read@), FileChange::Unchanged, read@.len() as int),
        p.removed_files == p.removed@.len(),
{
    let ghost fs = entry_views(previous.files@);
    let ghost rv = pair_strs(read@);
    let ghost sv = strs(scanned@);
    let mut parse: Vec<String> = Vec::new();
    let mut new_files: usize = 0;
    let mut updated_files: usize = 0;
    let mut skipped_files: usize = 0;
    let mut i: usize = 0;
    while i < read.len()
        invariant
            0 <= i <= read.len(),
            fs == entry_views(previous.files@),
            rv == pair_strs(read@),
            strs(parse@) == to_parse(fs, rv, i as int),
            new_files == count_of(fs, rv, FileChange::New, i as int),
            updated_files == count_of(fs, rv, FileChange::Updated, i as int),
            skipped_files == count_of(fs, rv, FileChange::Unchanged, i as int),
            new_files + updated_files + skipped_files == i,
        decreases read.len() - i,
    {
        let path = &read[i].0;
        let hash = &read[i].1;
        assert(rv[i as int] == (path@, hash@));
        let ghost before = strs(parse@);
        match first_entry(&previous.files, path.as_str()) {
            None => {
                parse.push(path.clone());
                new_files = new_files + 1;
            },
            Some(j) => {
                proof {
                    lemma_entry_for(fs, path@, fs.len() as int);
                }
                assert(fs[j as int].1 == previous.files@[j as int].content_hash@);
                if crate::graph::string_eq(&previous.files[j].content_hash, hash) {
                    skipped_files = skipped_files + 1;
                } else {
                    parse.push(path.clone());
                    updated_files = updated_files + 1;
                }
            },
        }
        assert(strs(parse@) =~= to_parse(fs, rv, i + 1));
        i = i + 1;
    }
    let mut removed: Vec<String> = Vec::new();
    let mut j: usize = 0;
    while j < previous.files.len()
        invariant
            0 <= j <= previous.files.len(),
            fs == entry_views(previous.files@),
            sv == strs(scanned@),
            strs(removed@) == gone(fs, sv, j as int),
            removed@.len() <= j,
        decreases previous.files.len() - j,
    {
        let path = &previous.files[j].path;
        assert(fs[j as int].0 == path@);
        if !is_scanned(scanned, path) {
            removed.push(path.clone());
        }
        assert(strs(removed@) =~= gone(fs, sv, j + 1));
        j = j + 1;
    }
    let removed_files = removed.len();
    IndexPlan { parse, removed, new_files, updated_files, skipped_files, removed_files }
}

/// Whether `path` is among `ps`.
pub open spec fn listed(ps: Seq<Seq<char>>, path: Seq<char>) -> bool {
    exists|k: int| 0 <= k < ps.len() && ps[k] == path
}

/// The first `n` entries without those whose path is listed.
pub open spec fn without(fs: Seq<EntryView>, ps: Seq<Seq<char>>, n: int) -> Seq<EntryView>
    decreases n,
{
    if n <= 0 {
        seq![]
    } else {
        let prev = without(fs, ps, n - 1);
        if listed(ps, fs[n - 1].0) {
            prev
        } else {
            prev.push(fs[n - 1])
        }
    }
}

fn is_listed(ps: &Vec<String>, path: &String) -> (b: bool)
    ensures
        b == listed(strs(ps@), path@),
{
    let mut k: usize = 0;
    while k < ps.len()
        invariant
            0 <= k <= ps.len(),
            forall|t: int| 0 <= t < k ==> strs(ps@)[t] != path@,
        decreases ps.len() - k,
    {
        if crate::graph::string_eq(&ps[k], path) {
            assert(strs(ps@)[k as int] == path@);
            return true;
        }
        k = k + 1;
    }
    false
}

/// Drops the entries of the files a plan removes, keeping the others in
/// order.
pub fn apply_plan(metadata: &mut IndexMetadata, plan: &IndexPlan)
    ensures
        final(metadata).version == old(metadata).version,
        entry_views(final(metadata).files@) == without(
            entry_views(old(metadata).files@),
            strs(plan.removed@),
            old(metadata).files@.len() as int,
        ),
{
    let ghost fs = entry_views(metadata.files@);
    let mut kept: Vec<FileMetadata> = Vec::new();
    let mut i: usize = 0;
    while i < metadata.files.len()
        invariant
            0 <= i <= metadata.files.len(),
            metadata.files@ == old(metadata).files@,
            metadata.version == old(metadata).version,
            fs == entry_views(metadata.files@),
            entry_views(kept@) == without(fs, strs(plan.removed@), i as int),
        decreases metadata.files.len() - i,
    {
        assert(fs[i as int] == entry_view(metadata.files@[i as int]));
        if !is_listed(&plan.removed, &metadata.files[i].path) {
            let f = &metadata.files[i];
            let e = FileMetadata {
                path: f.path.clone(),
                content_hash: f.content_hash.clone(),
                last_modified: f.last_modified,
                chunk_ids: crate::graph::clone_strings(&f.chunk_ids),
            };
            let ghost before = entry_views(kept@);
            kept.push(e);
            assert(entry_views(kept@) =~= before.push(fs[i as int]));
        }
        assert(entry_views(kept@) =~= without(fs, strs(plan.removed@), i + 1));
        i = i + 1;
    }
    metadata.files = kept;
}

/// The note that the commit log records for an indexing run.
pub open spec fn commit_note_spec(new_files: nat, updated_files: nat, removed_files: nat, skipped_files: nat) -> Seq<char> {
    "Indexed files: new="@ + decimal(new_files) + ", updated="@ + decimal(updated_files) + ", removed="@
        + decimal(removed_files) + ", skipped="@ + decimal(skipped_files)
}

/// Writes the commit note of a plan: its counts of new, updated, removed
/// and skipped files.
pub fn commit_note(plan: &IndexPlan) -> (note: String)
    ensures
        note@ == commit_note_spec(
            plan.new_files as nat,
            plan.updated_files as nat,
            plan.removed_files as nat,
            plan.skipped_files as nat,
        ),
{
    let mut out = chars_of("Indexed files: new=");
    append(&mut out, decimal_exec(plan.new_files).as_slice());
    append(&mut out, chars_of(", updated=").as_slice());
    append(&mut out, decimal_exec(plan.updated_files).as_slice());
    append(&mut out, chars_of(", removed=").as_slice());
    append(&mut out, decimal_exec(plan.removed_files).as_slice());
    append(&mut out, chars_of(", skipped=").as_slice());
    append(&mut out, decimal_exec(plan.skipped_files).as_slice());
    string_of(out.as_slice())
}

} // verus!
