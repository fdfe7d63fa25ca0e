pub mod archive;
pub mod errs;
pub mod paths;
pub mod resolve;
pub mod xml;

use vstd::prelude::*;
use vstd::string::StringSliceAdditionalSpecFns;

use crate::archive::{extract_archive, outcomes_model, planned, zip_entry_readable, zip_parse, EntryOutcome};
use crate::errs::{
    append_str, lossy_string, lossy_utf8, OfdError, FILENAME_EXTENSION_INVALID, INIT_ZIP_ERR,
    UNZIP_ERR,
};
use crate::paths::{
    base_name, check_ofd_extension, find_base_start, has_ofd_extension, lemma_base_start_bounds,
};
use crate::resolve::{
    lemma_resolve_ok_nonneg, resolve_err_extra, resolve_err_message, resolve_page_count,
    resolve_spec, ResolveError,
};

verus! {

/// The directory under which every container is extracted, joined with the
/// container file's base name.
pub const DEFAULT_ZIP_EXTRACTION_DIR: &'static str = "./unzipDestDir/";

/// Copies `pb[a..b]` out as an owned byte string.
fn bytes_range_vec(pb: &[u8], a: usize, b: usize) -> (v: Vec<u8>)
    requires
        a <= b <= pb@.len(),
    ensures
        v@ == pb@.subrange(a as int, b as int),
{
    let mut v: Vec<u8> = Vec::new();
    let mut i: usize = a;
    proof {
        assert(v@ =~= pb@.subrange(a as int, a as int));
    }
    while i < b
        invariant
            a <= i <= b <= pb@.len(),
            v@ == pb@.subrange(a as int, i as int),
        decreases b - i,
    {
        v.push(pb[i]);
        proof {
            assert(v@ =~= pb@.subrange(a as int, i + 1));
        }
        i = i + 1;
    }
    v
}

/// An opened container: its identity, the directory its contents are meant
/// to live under, the extraction outcomes, and the lazily resolved page
/// count.
#[derive(Debug)]
pub struct OFD {
    file_name: String,
    file_path: String,
    unzip_root_path: String,
    page_count: Option<i32>,
    entries: Vec<EntryOutcome>,
}

impl OFD {
    /// Once the page count is cached it is the resolved count of the
    /// extracted entries, and never negative.
    #[verifier::type_invariant]
    spec fn inv(&self) -> bool {
        match self.page_count {
            Some(n) => n >= 0 && resolve_spec(self.entries@) == Result::<
                int,
                ResolveError,
            >::Ok(n as int),
            None => true,
        }
    }

    pub closed spec fn spec_name(&self) -> Seq<char> {
        self.file_name@
    }

    pub closed spec fn spec_path(&self) -> Seq<char> {
        self.file_path@
    }

    pub closed spec fn spec_root(&self) -> Seq<char> {
        self.unzip_root_path@
    }

    pub closed spec fn spec_entries(&self) -> Seq<EntryOutcome> {
        self.entries@
    }

    pub closed spec fn spec_page_cache(&self) -> Option<i32> {
        self.page_count
    }

    pub fn get_ofd_name(&self) -> (r: &str)
        ensures
            r@ == self.spec_name(),
    {
        self.file_name.as_str()
    }

    pub fn get_ofd_path(&self) -> (r: &str)
        ensures
            r@ == self.spec_path(),
    {
        self.file_path.as_str()
    }

    pub fn get_unzip_root_path(&self) -> (r: &str)
        ensures
            r@ == self.spec_root(),
    {
        self.unzip_root_path.as_str()
    }

    /// The extraction outcomes, one per archive entry, in archive order.
    pub fn extracted_entries(&self) -> (r: &Vec<EntryOutcome>)
        ensures
            r@ == self.spec_entries(),
    {
        &self.entries
    }

    /// Resolves the container's page count, memoizing it: the first
    /// successful resolution is cached, later calls return the cached value
    /// unchanged; a failed resolution leaves the cache empty, so a later
    /// call retries.
    pub fn get_page_count(&mut self) -> (r: Result<i32, OfdError>)
        ensures
            final(self).spec_name() == old(self).spec_name(),
            final(self).spec_path() == old(self).spec_path(),
            final(self).spec_root() == old(self).spec_root(),
            final(self).spec_entries() == old(self).spec_entries(),
            old(self).spec_page_cache() matches Some(n) ==> r matches Ok(c) && c == n
                && final(self).spec_page_cache() == Some(n),
            old(self).spec_page_cache() is None ==> match resolve_spec(old(self).spec_entries()) {
                Result::Ok(n) => r matches Ok(c) && c == n && (final(self).spec_page_cache()
                    matches Some(m) && m == n),
                Result::Err(e) => r matches Err(err) && err.message_view() == resolve_err_message(
                    e,
                ) && err.extra_view() == resolve_err_extra(old(self).spec_entries(), e)
                    && final(self).spec_page_cache() is None,
            },
            r matches Ok(c) ==> c >= 0 && resolve_spec(old(self).spec_entries()) == Result::<
                int,
                ResolveError,
            >::Ok(c as int),
    {
        proof {
            use_type_invariant(&*self);
        }
        match self.page_count {
            Some(n) => Ok(n),
            None => {
                match resolve_page_count(&self.entries) {
                    Ok(c) => {
                        proof {
                            lemma_resolve_ok_nonneg(self.entries@);
                        }
                        self.page_count = Some(c);
                        Ok(c)
                    },
                    Err(e) => Err(e),
                }
            },
        }
    }

    /// Opens a container from its path and the archive bytes read from that
    /// path: the filename must end in the exact required extension; the
    /// archive is extracted (unsafe entries skipped); the page count starts
    /// unresolved. The extraction root is the fixed extraction directory
    /// joined with the file's base name.
    pub fn from_local_file(ofd_path: &str, archive: &[u8]) -> (r: Result<OFD, OfdError>)
        ensures
            !has_ofd_extension(ofd_path.spec_bytes()) ==> r is Err
                && r->Err_0.message_view() == FILENAME_EXTENSION_INVALID@
                && r->Err_0.extra_view() == ofd_path@,
            has_ofd_extension(ofd_path.spec_bytes()) && zip_parse(archive@) is None ==> r is Err
                && r->Err_0.message_view() == INIT_ZIP_ERR@,
            has_ofd_extension(ofd_path.spec_bytes()) && zip_parse(archive@) is Some ==> (r is Ok
                <==> forall|i: int|
                    0 <= i < zip_parse(archive@)->0.len() ==> zip_entry_readable(archive@, i)),
            has_ofd_extension(ofd_path.spec_bytes()) && zip_parse(archive@) is Some ==> r is Ok
                || (r is Err && r->Err_0.message_view() == UNZIP_ERR@),
            r matches Ok(ofd) ==> {
                &&& has_ofd_extension(ofd_path.spec_bytes())
                &&& zip_parse(archive@) is Some
                &&& outcomes_model(ofd.spec_entries()) == planned(zip_parse(archive@)->0)
                &&& ofd.spec_page_cache() is None
                &&& ofd.spec_name() == lossy_utf8(base_name(ofd_path.spec_bytes()))
                &&& ofd.spec_path() == ofd_path@
                &&& ofd.spec_root() == DEFAULT_ZIP_EXTRACTION_DIR@ + lossy_utf8(
                    base_name(ofd_path.spec_bytes()),
                )
            },
    {
        let pb = ofd_path.as_bytes();
        if !check_ofd_extension(pb) {
            return Err(OfdError::from(FILENAME_EXTENSION_INVALID, ofd_path.to_owned()));
        }
        let bs = find_base_start(pb);
        proof {
            lemma_base_start_bounds(ofd_path.spec_bytes());
        }
        let base = bytes_range_vec(pb, bs, pb.len());
        let file_name = lossy_string(base.as_slice());
        let entries = match extract_archive(archive) {
            Ok(e) => e,
            Err(e) => {
                return Err(e);
            },
        };
        let mut root = DEFAULT_ZIP_EXTRACTION_DIR.to_owned();
        append_str(&mut root, file_name.as_str());
        Ok(
            OFD {
                file_name,
                file_path: ofd_path.to_owned(),
                unzip_root_path: root,
                page_count: None,
                entries,
            },
        )
    }
}

} // verus!
