use vstd::prelude::*;
use std::io::Read;
use crate::action::{Action, actions_view};
use crate::error::ScaffoldError;
use crate::extract::{Entry, EntryView, Extraction, PlanView, plan_of, entry_step, empty_plan, is_dir_name};
use crate::paths::{has_prefix, ends_with_char, starts_with};

verus! {

/// An archive opened from bytes held in memory.
pub type Archive = zip::ZipArchive<std::io::Cursor<Vec<u8>>>;

#[verifier::external_type_specification]
#[verifier::external_body]
#[verifier::reject_recursive_types(R)]
pub struct ExZipArchive<R>(zip::ZipArchive<R>);

#[verifier::external_type_specification]
#[verifier::external_body]
#[verifier::reject_recursive_types(T)]
pub struct ExCursor<T>(std::io::Cursor<T>);

#[verifier::external_type_specification]
#[verifier::external_body]
pub struct ExZipError(zip::result::ZipError);

/// One entry of an archive: its name, its recorded POSIX mode, its decompressed bytes,
/// whether its local header reads, and whether its bytes read to the end.
pub type ZipEntry = (Seq<char>, Option<u32>, Seq<u8>, bool, bool);

/// What an archive holds, entry by entry in its central directory's order: the
/// entry's name, its recorded POSIX mode, its decompressed bytes (read with an empty
/// password), whether its local header reads, and whether its bytes read to the end.
pub uninterp spec fn zip_entries(a: zip::ZipArchive<std::io::Cursor<Vec<u8>>>) -> Seq<(Seq<char>, Option<u32>, Seq<u8>, bool, bool)>;

/// What `ZipArchive::new` finds in these bytes: the entries, where they parse as a
/// zip archive.
pub uninterp spec fn zip_parse(data: Seq<u8>) -> Option<Seq<(Seq<char>, Option<u32>, Seq<u8>, bool, bool)>>;

/// The names of the entries.
pub open spec fn entry_names(es: Seq<ZipEntry>) -> Seq<Seq<char>> {
    es.map_values(|e: ZipEntry| e.0)
}

/// An entry as the extraction engine sees it.
pub open spec fn entry_view(e: ZipEntry) -> EntryView {
    EntryView { name: e.0, unix_mode: e.1, data: e.2 }
}

/// The entries as the extraction engine sees them.
pub open spec fn archive_view(es: Seq<ZipEntry>) -> Seq<EntryView> {
    es.map_values(|e: ZipEntry| entry_view(e))
}

/// Relies on zip's `ZipArchive::new`: it parses the central directory of the bytes,
/// and succeeds or fails on the bytes alone.
#[verifier::external_body]
fn open_zip(data: Vec<u8>) -> (r: Result<Archive, zip::result::ZipError>)
    ensures
        r is Ok <==> zip_parse(data@) is Some,
        r is Ok ==> zip_entries(r->Ok_0) == zip_parse(data@)->Some_0,
{
    zip::ZipArchive::new(std::io::Cursor::new(data))
}

/// Relies on zip's `ZipArchive::len`: the number of entries.
#[verifier::external_body]
fn entry_count(a: &Archive) -> (r: usize)
    ensures
        r == zip_entries(*a).len(),
{
    a.len()
}

/// Relies on zip's `ZipArchive::file_names`: each name of an entry, in no fixed order.
#[verifier::external_body]
fn name_list(a: &Archive) -> (r: Vec<String>)
    ensures
        r@.map_values(|s: String| s@).to_set() == entry_names(zip_entries(*a)).to_set(),
{
    a.file_names().map(|s| s.to_string()).collect()
}

/// Relies on zip's `ZipArchive::by_index_raw`, `ZipFile::name` and `ZipFile::unix_mode`:
/// the name and recorded mode of entry `i`, exactly where its local header reads.
#[verifier::external_body]
fn entry_header(a: &mut Archive, i: usize) -> (r: Result<(String, Option<u32>), zip::result::ZipError>)
    ensures
        zip_entries(*final(a)) == zip_entries(*old(a)),
        r is Ok <==> i < zip_entries(*old(a)).len() && zip_entries(*old(a))[i as int].3,
        r is Ok ==> r->Ok_0.0@ == zip_entries(*old(a))[i as int].0
            && r->Ok_0.1 == zip_entries(*old(a))[i as int].1,
{
    let f = a.by_index_raw(i)?;
    Ok((f.name().to_string(), f.unix_mode()))
}

/// Relies on zip's `ZipArchive::by_index_decrypt` (with an empty password, which an
/// unencrypted entry ignores) and its reader: the decompressed bytes of entry `i`,
/// exactly where they read to the end.
#[verifier::external_body]
fn entry_contents(a: &mut Archive, i: usize) -> (r: Result<Vec<u8>, zip::result::ZipError>)
    ensures
        zip_entries(*final(a)) == zip_entries(*old(a)),
        r is Ok <==> i < zip_entries(*old(a)).len() && zip_entries(*old(a))[i as int].4,
        r is Ok ==> r->Ok_0@ == zip_entries(*old(a))[i as int].2,
{
    let mut f = match a.by_index_decrypt(i, b"")? {
        Ok(f) => f,
        Err(_) => return Err(zip::result::ZipError::UnsupportedArchive(zip::result::ZipError::PASSWORD_REQUIRED)),
    };
    let mut data: Vec<u8> = Vec::new();
    f.read_to_end(&mut data)?;
    Ok(data)
}

/// Relies on the `Display` impl of zip's `ZipError`: a readable cause.
#[verifier::external_body]
fn zip_error_text(e: &zip::result::ZipError) -> (r: String)
{
    e.to_string()
}

/// The archive directory that holds the SDK; only entries under it are extracted.
pub const SDK_PREFIX: &'static str = "dragonruby-macos";

/// The entries whose presence marks an archive as an SDK distribution.
pub open spec fn sdk_markers() -> Seq<Seq<char>> {
    seq!["dragonruby-macos/dragonruby"@, "dragonruby-macos/console-logo.png"@]
}

/// Every name of `files` is the name of an entry.
pub open spec fn all_present(names: Seq<Seq<char>>, files: Seq<Seq<char>>) -> bool {
    forall|j: int| 0 <= j < files.len() ==> names.contains(#[trigger] files[j])
}

/// The bytes are a zip archive that holds every SDK marker.
pub open spec fn is_sdk_archive(data: Seq<u8>) -> bool {
    zip_parse(data) is Some && all_present(entry_names(zip_parse(data)->Some_0), sdk_markers())
}

/// Whether every name of `files` is the name of an entry of the archive.
pub fn files_exist_in_archive(archive: &Archive, files: &Vec<String>) -> (r: bool)
    ensures
        r == all_present(entry_names(zip_entries(*archive)), files@.map_values(|s: String| s@)),
{
    let names = name_list(archive);
    let ghost listed = names@.map_values(|s: String| s@);
    let ghost wanted = files@.map_values(|s: String| s@);
    let ghost all = entry_names(zip_entries(*archive));
    assert(forall|x: Seq<char>| listed.contains(x) <==> all.contains(x)) by {
        assert forall|x: Seq<char>| listed.contains(x) <==> all.contains(x) by {
            assert(listed.to_set().contains(x) == all.to_set().contains(x));
        }
    }
    let mut result = true;
    let mut j: usize = 0;
    while j < files.len()
        invariant
            j <= files@.len(),
            wanted == files@.map_values(|s: String| s@),
            forall|x: Seq<char>| listed.contains(x) <==> all.contains(x),
            listed == names@.map_values(|s: String| s@),
            result == (forall|k: int| 0 <= k < j ==> all.contains(#[trigger] wanted[k])),
        decreases files@.len() - j,
    {
        let mut found = false;
        let mut k: usize = 0;
        while k < names.len()
            invariant
                j < files@.len(),
                k <= names@.len(),
                listed == names@.map_values(|s: String| s@),
                found == (exists|m: int| 0 <= m < k && #[trigger] listed[m] == files@[j as int]@),
            decreases names@.len() - k,
        {
            if names[k] == files[j] {
                assert(listed[k as int] == files@[j as int]@);
                found = true;
            }
            k = k + 1;
        }
        assert(found == listed.contains(wanted[j as int]));
        result = result && found;
        j = j + 1;
    }
    result
}

/// Whether the bytes are a zip archive that holds every SDK marker. Bytes that are
/// no zip archive are not one.
pub fn archive_is_drgtk(data: Vec<u8>) -> (r: bool)
    ensures
        r == is_sdk_archive(data@),
{
    let archive = match open_zip(data) {
        Ok(a) => a,
        Err(_) => {
            return false;
        },
    };
    let markers = vec![
        String::from_str("dragonruby-macos/dragonruby"),
        String::from_str("dragonruby-macos/console-logo.png"),
    ];
    assert(markers@.map_values(|s: String| s@) =~= sdk_markers());
    files_exist_in_archive(&archive, &markers)
}

/// How an extraction of the archive's entries ends.
pub enum ExtractOutcome {
    /// Every entry was read and planned.
    Planned(PlanView),
    /// Entry `k` could not be read: its header, or, for a file under the prefix, its bytes.
    ReadFails(int),
    /// Entry `k` has an unsafe path.
    Unsafe(int),
}

/// The outcome of extracting the entries in archive order: each entry's header is
/// read; a file under the prefix has its bytes read; then it is planned. The first
/// entry that fails decides.
pub open spec fn extraction_outcome(es: Seq<ZipEntry>, prefix: Seq<char>) -> ExtractOutcome
    decreases es.len(),
{
    if es.len() == 0 {
        ExtractOutcome::Planned(empty_plan())
    } else {
        let k = es.len() - 1;
        let e = es.last();
        match extraction_outcome(es.drop_last(), prefix) {
            ExtractOutcome::Planned(p) => if !e.3 {
                ExtractOutcome::ReadFails(k)
            } else if starts_with(e.0, prefix) && !is_dir_name(e.0) && !e.4 {
                ExtractOutcome::ReadFails(k)
            } else {
                match entry_step(p, entry_view(e), prefix) {
                    Some(q) => ExtractOutcome::Planned(q),
                    None => ExtractOutcome::Unsafe(k),
                }
            },
            other => other,
        }
    }
}

/// The result that an extraction with this outcome returns.
pub open spec fn outcome_matches(
    es: Seq<ZipEntry>,
    o: ExtractOutcome,
    r: Result<Vec<Action>, ScaffoldError>,
) -> bool {
    match o {
        ExtractOutcome::Planned(p) => r is Ok && actions_view(r->Ok_0@) == p.actions,
        ExtractOutcome::ReadFails(k) => r is Err && r->Err_0 is EntryRead && r->Err_0->EntryRead_0 == k,
        ExtractOutcome::Unsafe(k) => r is Err && r->Err_0 is UnsafePath && r->Err_0->UnsafePath_0@ == es[k].0,
    }
}

/// Once an extraction has failed on a prefix of the entries, later entries do not change
/// the outcome.
pub proof fn lemma_outcome_settles(es: Seq<ZipEntry>, prefix: Seq<char>, k: int)
    requires
        0 <= k <= es.len(),
        !(extraction_outcome(es.subrange(0, k), prefix) is Planned),
    ensures
        extraction_outcome(es, prefix) == extraction_outcome(es.subrange(0, k), prefix),
    decreases es.len() - k,
{
    if k < es.len() {
        assert(es.subrange(0, k + 1).drop_last() =~= es.subrange(0, k));
        lemma_outcome_settles(es, prefix, k + 1);
    } else {
        assert(es.subrange(0, k) =~= es);
    }
}

/// An extraction where every entry reads ends as the plan of the entries does.
pub proof fn lemma_readable_outcome_is_plan(es: Seq<ZipEntry>, prefix: Seq<char>)
    requires
        forall|k: int| 0 <= k < es.len() ==> (#[trigger] es[k]).3 && es[k].4,
    ensures
        plan_of(archive_view(es), prefix) is Some
            <==> extraction_outcome(es, prefix) is Planned,
        extraction_outcome(es, prefix) is Planned
            ==> extraction_outcome(es, prefix)->Planned_0 == plan_of(archive_view(es), prefix)->Some_0,
    decreases es.len(),
{
    if es.len() > 0 {
        let rest = es.drop_last();
        assert forall|k: int| 0 <= k < rest.len() implies (#[trigger] rest[k]).3 && rest[k].4 by {
            assert(rest[k] == es[k]);
        }
        lemma_readable_outcome_is_plan(rest, prefix);
        assert(archive_view(es).drop_last() =~= archive_view(rest));
        assert(es.last() == es[es.len() - 1]);
    }
}

/// An entry outside the prefix whose header reads leaves the outcome as it was.
pub proof fn lemma_outside_entry_keeps_outcome(es: Seq<ZipEntry>, e: ZipEntry, prefix: Seq<char>)
    requires
        e.3,
        !starts_with(e.0, prefix),
    ensures
        extraction_outcome(es.push(e), prefix) == extraction_outcome(es, prefix),
{
    assert(es.push(e).drop_last() =~= es);
}

/// An archive whose entries all have readable headers and none starts with the prefix
/// is extracted successfully with nothing planned.
pub proof fn lemma_nothing_under_prefix(es: Seq<ZipEntry>, prefix: Seq<char>)
    requires
        forall|k: int| 0 <= k < es.len() ==> (#[trigger] es[k]).3 && !starts_with(es[k].0, prefix),
    ensures
        extraction_outcome(es, prefix) == ExtractOutcome::Planned(empty_plan()),
    decreases es.len(),
{
    if es.len() > 0 {
        let rest = es.drop_last();
        assert forall|k: int| 0 <= k < rest.len() implies (#[trigger] rest[k]).3 && !starts_with(rest[k].0, prefix) by {
            assert(rest[k] == es[k]);
        }
        lemma_nothing_under_prefix(rest, prefix);
        assert(es.last() == es[es.len() - 1]);
    }
}

/// Plans the extraction of the archive's entries under `prefix`, reading them in
/// archive order. Fails on the first entry that cannot be read or whose path is unsafe,
/// naming it; succeeds with the plan of the entries otherwise.
pub fn extract_archive(a: &mut Archive, prefix: &str) -> (r: Result<Vec<Action>, ScaffoldError>)
    ensures
        zip_entries(*final(a)) == zip_entries(*old(a)),
        outcome_matches(zip_entries(*old(a)), extraction_outcome(zip_entries(*old(a)), prefix@), r),
{
    let ghost es = zip_entries(*a);
    let n = entry_count(a);
    let mut ex = Extraction::new();
    let mut i: usize = 0;
    assert(es.subrange(0, 0) =~= seq![]);
    while i < n
        invariant
            es == zip_entries(*old(a)),
            zip_entries(*a) == zip_entries(*old(a)),
            n == es.len(),
            i <= n,
            ex.wf(),
            extraction_outcome(es.subrange(0, i as int), prefix@) == ExtractOutcome::Planned(ex@),
        decreases n - i,
    {
        assert(es.subrange(0, i + 1).drop_last() =~= es.subrange(0, i as int));
        assert(es.subrange(0, i + 1).last() == es[i as int]);
        let (name, mode) = match entry_header(a, i) {
            Ok(h) => h,
            Err(e) => {
                proof { lemma_outcome_settles(es, prefix@, i + 1); }
                return Err(ScaffoldError::EntryRead(i, zip_error_text(&e)));
            },
        };
        if has_prefix(name.as_str(), prefix) {
            let data = if ends_with_char(name.as_str(), '/') {
                Vec::new()
            } else {
                match entry_contents(a, i) {
                    Ok(d) => d,
                    Err(e) => {
                        proof { lemma_outcome_settles(es, prefix@, i + 1); }
                        return Err(ScaffoldError::EntryRead(i, zip_error_text(&e)));
                    },
                }
            };
            let entry = Entry { name, unix_mode: mode, data };
            assert(entry_step(ex@, entry@, prefix@) == entry_step(ex@, entry_view(es[i as int]), prefix@));
            match ex.add_entry(&entry, prefix) {
                Ok(()) => {},
                Err(e) => {
                    proof { lemma_outcome_settles(es, prefix@, i + 1); }
                    return Err(e);
                },
            }
        } else {
            assert(entry_step(ex@, entry_view(es[i as int]), prefix@) == Some(ex@));
        }
        i = i + 1;
    }
    assert(es.subrange(0, es.len() as int) =~= es);
    Ok(ex.into_actions())
}

/// The text of an open failure: zip's cause after a fixed lead-in.
pub open spec fn open_failure_text(cause: Seq<char>) -> Seq<char> {
    "Could not read DRGTK: "@ + cause
}

/// Plans a new project from the bytes of an SDK archive: the archive must open and
/// be recognised, then its SDK directory is planned for extraction.
pub fn plan_new_project(data: Vec<u8>) -> (r: Result<Vec<Action>, ScaffoldError>)
    ensures
        zip_parse(data@) is None ==> r is Err && r->Err_0 is ArchiveOpen
            && exists|cause: Seq<char>| r->Err_0->ArchiveOpen_0@ == #[trigger] open_failure_text(cause),
        zip_parse(data@) is Some && !is_sdk_archive(data@) ==> r is Err && r->Err_0 is NotRecognized,
        is_sdk_archive(data@) ==> outcome_matches(
            zip_parse(data@)->Some_0,
            extraction_outcome(zip_parse(data@)->Some_0, SDK_PREFIX@),
            r,
        ),
{
    let mut archive = match open_zip(data) {
        Ok(a) => a,
        Err(e) => {
            let cause = zip_error_text(&e);
            let text = String::from_str("Could not read DRGTK: ").concat(cause.as_str());
            assert(text@ == open_failure_text(cause@));
            return Err(ScaffoldError::ArchiveOpen(text));
        },
    };
    let markers = vec![
        String::from_str("dragonruby-macos/dragonruby"),
        String::from_str("dragonruby-macos/console-logo.png"),
    ];
    assert(markers@.map_values(|s: String| s@) =~= sdk_markers());
    if !files_exist_in_archive(&archive, &markers) {
        return Err(ScaffoldError::NotRecognized);
    }
    extract_archive(&mut archive, SDK_PREFIX)
}

/// A listing is recognised exactly when it names both SDK markers; other entries
/// neither make nor unmake that.
pub proof fn lemma_recognised_by_markers(names: Seq<Seq<char>>, extra: Seq<Seq<char>>)
    ensures
        all_present(names, sdk_markers()) <==> (names.contains("dragonruby-macos/dragonruby"@)
            && names.contains("dragonruby-macos/console-logo.png"@)),
        all_present(names, sdk_markers()) ==> all_present(names + extra, sdk_markers()),
{
    let m = sdk_markers();
    if names.contains(m[0]) && names.contains(m[1]) {
        assert forall|j: int| 0 <= j < m.len() implies names.contains(#[trigger] m[j]) by {}
    }
    if all_present(names, m) {
        assert(names.contains(m[0]));
        assert(names.contains(m[1]));
        assert forall|j: int| 0 <= j < m.len() implies (names + extra).contains(#[trigger] m[j]) by {
            let k = choose|k: int| 0 <= k < names.len() && names[k] == m[j];
            assert((names + extra)[k] == m[j]);
        }
    }
}

} // verus!
