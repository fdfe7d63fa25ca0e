use vstd::prelude::*;

use crate::errs::{OfdError, INIT_ZIP_ERR, UNZIP_ERR};
use crate::paths::{safe_rel_path, B_SLASH};

verus! {

// ---------------------------------------------------------------------------
// Reading the container archive.
//
// Decoding the archive bytes is delegated to the zip crate, over an in-memory
// cursor. What a given archive holds — a sequence of (stored path, content)
// entries — is named by `zip_parse`; which entries get materialized, and
// under which confined path, is decided and verified here.
// ---------------------------------------------------------------------------

#[verifier::external_type_specification]
#[verifier::external_body]
#[verifier::reject_recursive_types(R)]
pub struct ExZipArchive<R>(zip::ZipArchive<R>);

#[verifier::external_type_specification]
#[verifier::external_body]
#[verifier::reject_recursive_types(T)]
pub struct ExIoCursor<T>(std::io::Cursor<T>);

/// The (stored path, content) entries of a valid archive, in archive order;
/// nothing if the bytes are not a valid archive.
pub uninterp spec fn zip_parse(bytes: Seq<u8>) -> Option<Seq<(Seq<u8>, Seq<u8>)>>;

/// The entries an open archive holds.
pub uninterp spec fn archive_entries(a: zip::ZipArchive<std::io::Cursor<Vec<u8>>>) -> Seq<
    (Seq<u8>, Seq<u8>),
>;

/// Whether the entry at the given position of the archive in `bytes`
/// decompresses cleanly (its data and checksum are intact).
pub uninterp spec fn zip_entry_readable(bytes: Seq<u8>, i: int) -> bool;

/// The same fact, on an open archive.
pub uninterp spec fn entry_readable(a: zip::ZipArchive<std::io::Cursor<Vec<u8>>>, i: int) -> bool;

/// Relies on zip::ZipArchive::new: it reads the central directory of the
/// archive from the given bytes, succeeding exactly when they form a valid
/// archive; the entries found, and whether each decompresses cleanly, are
/// functions of the bytes alone.
#[verifier::external_body]
fn archive_open(bytes: &[u8]) -> (r: Option<zip::ZipArchive<std::io::Cursor<Vec<u8>>>>)
    ensures
        r is Some <==> zip_parse(bytes@) is Some,
        r is Some ==> archive_entries(r->0) == zip_parse(bytes@)->0,
        r is Some ==> forall|i: int| #[trigger] entry_readable(r->0, i) == zip_entry_readable(
            bytes@,
            i,
        ),
{
    zip::ZipArchive::new(std::io::Cursor::new(bytes.to_vec())).ok()
}

/// Relies on zip::ZipArchive::len: the number of entries the archive holds.
#[verifier::external_body]
fn archive_len(a: &zip::ZipArchive<std::io::Cursor<Vec<u8>>>) -> (n: usize)
    ensures
        n == archive_entries(*a).len(),
{
    a.len()
}

/// Relies on zip::ZipArchive::by_index and std::io::Read::read_to_end: they
/// yield the stored path and the decompressed content of the entry at the
/// given position, succeeding exactly when that entry decompresses cleanly,
/// and change neither what the archive holds nor which entries are readable.
#[verifier::external_body]
fn archive_entry(a: &mut zip::ZipArchive<std::io::Cursor<Vec<u8>>>, i: usize) -> (r: Option<
    (Vec<u8>, Vec<u8>),
>)
    requires
        i < archive_entries(*old(a)).len(),
    ensures
        archive_entries(*final(a)) == archive_entries(*old(a)),
        forall|j: int| #[trigger] entry_readable(*final(a), j) == entry_readable(*old(a), j),
        r is Some <==> entry_readable(*old(a), i as int),
        r matches Some(e) ==> e.0@ == archive_entries(*old(a))[i as int].0 && e.1@
            == archive_entries(*old(a))[i as int].1,
{
    match a.by_index(i) {
        Ok(mut f) => {
            let name = f.name().as_bytes().to_vec();
            let mut data = Vec::new();
            match std::io::Read::read_to_end(&mut f, &mut data) {
                Ok(_) => Some((name, data)),
                Err(_) => None,
            }
        },
        Err(_) => None,
    }
}

// ---------------------------------------------------------------------------
// The extraction plan.
// ---------------------------------------------------------------------------

/// What extraction decides for one archive entry: a file to write under its
/// confined relative path, a directory to create, or an entry skipped because
/// its stored path is not confinable under the destination.
#[derive(Debug)]
pub enum EntryOutcome {
    File { path: Vec<u8>, data: Vec<u8> },
    Dir { path: Vec<u8> },
    Skipped { name: Vec<u8> },
}

/// The mathematical shape of one outcome.
pub enum OutcomeModel {
    FileM { path: Seq<u8>, data: Seq<u8> },
    DirM { path: Seq<u8> },
    SkippedM { name: Seq<u8> },
}

pub open spec fn out_model(o: EntryOutcome) -> OutcomeModel {
    match o {
        EntryOutcome::File { path, data } => OutcomeModel::FileM { path: path@, data: data@ },
        EntryOutcome::Dir { path } => OutcomeModel::DirM { path: path@ },
        EntryOutcome::Skipped { name } => OutcomeModel::SkippedM { name: name@ },
    }
}

pub open spec fn outcomes_model(v: Seq<EntryOutcome>) -> Seq<OutcomeModel> {
    v.map_values(|o: EntryOutcome| out_model(o))
}

/// What extraction must decide for the entry `e`: directory entries (stored
/// path ending in '/') are created when their path is safe; file entries are
/// written when their path is safe; everything else is skipped, never fatal.
pub open spec fn plan_entry(e: (Seq<u8>, Seq<u8>)) -> OutcomeModel {
    let name = e.0;
    if name.len() > 0 && name[name.len() - 1] == B_SLASH {
        if safe_rel_path(name.drop_last()) {
            OutcomeModel::DirM { path: name.drop_last() }
        } else {
            OutcomeModel::SkippedM { name }
        }
    } else if safe_rel_path(name) {
        OutcomeModel::FileM { path: name, data: e.1 }
    } else {
        OutcomeModel::SkippedM { name }
    }
}

pub open spec fn planned(raw: Seq<(Seq<u8>, Seq<u8>)>) -> Seq<OutcomeModel> {
    raw.map_values(|e: (Seq<u8>, Seq<u8>)| plan_entry(e))
}

/// Every entry of a valid archive gets exactly one extraction outcome, in
/// archive order; a file entry whose stored path is confinable is extracted
/// under exactly that path with its content byte for byte, and a directory
/// entry whose path (separator stripped) is confinable is created under
/// exactly that path.
pub proof fn lemma_safe_entries_extracted(raw: Seq<(Seq<u8>, Seq<u8>)>, i: int)
    requires
        0 <= i < raw.len(),
    ensures
        planned(raw).len() == raw.len(),
        safe_rel_path(raw[i].0) ==> planned(raw)[i] == (OutcomeModel::FileM {
            path: raw[i].0,
            data: raw[i].1,
        }),
        raw[i].0.len() > 0 && raw[i].0.last() == B_SLASH && safe_rel_path(raw[i].0.drop_last())
            ==> planned(raw)[i] == (OutcomeModel::DirM { path: raw[i].0.drop_last() }),
{
    // A safe relative path never ends in a separator, so the two cases are
    // disjoint.
}

/// An entry whose stored path attempts traversal, is absolute, or is
/// otherwise not confinable is skipped rather than aborting extraction; and
/// nothing is ever planned outside the destination: every planned file or
/// directory carries a safe relative path.
pub proof fn lemma_unsafe_entries_skipped(raw: Seq<(Seq<u8>, Seq<u8>)>, i: int)
    requires
        0 <= i < raw.len(),
    ensures
        planned(raw).len() == raw.len(),
        !safe_rel_path(raw[i].0) && !(raw[i].0.len() > 0 && raw[i].0.last() == B_SLASH
            && safe_rel_path(raw[i].0.drop_last())) ==> planned(raw)[i] == (OutcomeModel::SkippedM {
            name: raw[i].0,
        }),
        planned(raw)[i] matches OutcomeModel::FileM { path, data } ==> safe_rel_path(path) && path
            == raw[i].0 && data == raw[i].1,
        planned(raw)[i] matches OutcomeModel::DirM { path } ==> safe_rel_path(path),
{
}

/// Extracts the archive held in `bytes` into an in-memory plan: one outcome
/// per entry, in archive order. Entries whose stored path is not confinable
/// are skipped, never fatal; extraction succeeds exactly when the archive is
/// valid and every entry decompresses cleanly, and a corrupt entry aborts
/// the whole extraction.
pub fn extract_archive(bytes: &[u8]) -> (r: Result<Vec<EntryOutcome>, OfdError>)
    ensures
        r matches Ok(out) ==> zip_parse(bytes@) is Some && outcomes_model(out@) == planned(
            zip_parse(bytes@)->0,
        ),
        zip_parse(bytes@) is None ==> r is Err && r->Err_0.message_view() == INIT_ZIP_ERR@,
        zip_parse(bytes@) is Some ==> (r is Ok <==> forall|i: int|
            0 <= i < zip_parse(bytes@)->0.len() ==> zip_entry_readable(bytes@, i)),
        zip_parse(bytes@) is Some ==> r is Ok || (r is Err && r->Err_0.message_view()
            == UNZIP_ERR@),
{
    let mut a = match archive_open(bytes) {
        Some(a) => a,
        None => {
            return Err(OfdError::from(INIT_ZIP_ERR, "not a valid archive".to_owned()));
        },
    };
    let n = archive_len(&a);
    let ghost raw = archive_entries(a);
    let mut out: Vec<EntryOutcome> = Vec::new();
    let mut i: usize = 0;
    proof {
        assert(outcomes_model(out@) =~= planned(raw.take(0)));
    }
    while i < n
        invariant
            0 <= i <= n,
            n == raw.len(),
            archive_entries(a) == raw,
            zip_parse(bytes@) == Some(raw),
            forall|j: int| #[trigger] entry_readable(a, j) == zip_entry_readable(bytes@, j),
            forall|j: int| 0 <= j < i ==> zip_entry_readable(bytes@, j),
            outcomes_model(out@) == planned(raw.take(i as int)),
        decreases n - i,
    {
        let (name, data) = match archive_entry(&mut a, i) {
            Some(e) => e,
            None => {
                proof {
                    assert(!zip_entry_readable(bytes@, i as int));
                }
                return Err(OfdError::from(UNZIP_ERR, "a corrupt entry could not be read".to_owned()));
            },
        };
        let ghost name0 = name@;
        let outcome: EntryOutcome;
        if name.len() > 0 && name[name.len() - 1] == B_SLASH {
            let mut d = name;
            d.pop();
            proof {
                assert(d@ =~= name0.drop_last());
            }
            if crate::paths::check_safe_path(&d) {
                outcome = EntryOutcome::Dir { path: d };
            } else {
                d.push(B_SLASH);
                proof {
                    assert(d@ =~= name0);
                }
                outcome = EntryOutcome::Skipped { name: d };
            }
        } else {
            if crate::paths::check_safe_path(&name) {
                outcome = EntryOutcome::File { path: name, data };
            } else {
                outcome = EntryOutcome::Skipped { name };
            }
        }
        proof {
            assert(out_model(outcome) == plan_entry(raw[i as int]));
        }
        let ghost out0 = outcomes_model(out@);
        out.push(outcome);
        proof {
            assert(outcomes_model(out@) =~= out0.push(plan_entry(raw[i as int])));
            assert(planned(raw.take(i + 1)) =~= planned(raw.take(i as int)).push(
                plan_entry(raw[i as int]),
            ));
        }
        i = i + 1;
    }
    proof {
        assert(raw.take(n as int) =~= raw);
    }
    Ok(out)
}

} // verus!
