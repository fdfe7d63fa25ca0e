use vstd::prelude::*;

verus! {

pub const FILENAME_EXTENSION_INVALID: &'static str = "filename extension invalid.";
pub const FILE_OPEN_ERR: &'static str = "failed to open file.";
pub const INIT_ZIP_ERR: &'static str = "init zip file error.";
pub const UNZIP_ERR: &'static str = "err occurs during unzip";
pub const FILE_COPY_ERR: &'static str = "failed to copy file.";
pub const CREATE_DIR_ERR: &'static str = "failed to create directory.";
pub const CREATE_FILE_ERR: &'static str = "failed to create file";
pub const DESCRIPTOR_NOT_FOUND_ERR: &'static str = "root descriptor not found.";
pub const READ_XML_ERR: &'static str = "failed to parse descriptor xml.";
pub const DOC_UNRESOLVABLE_ERR: &'static str = "referenced document unresolvable.";
pub const PAGE_COUNT_OVERFLOW_ERR: &'static str = "page count exceeds supported range.";

/// An error raised while opening a container or resolving its structure.
/// `message` names the failure kind (one of the constants above); `extra`
/// carries contextual detail such as the offending path.
#[derive(Debug)]
pub struct OfdError {
    message: String,
    extra: String,
}

/// Relies on String::push_str, for which vstd has no specification:
/// it appends the characters of `s` to `dst`.
#[verifier::external_body]
pub(crate) fn append_str(dst: &mut String, s: &str)
    ensures
        final(dst)@ == old(dst)@ + s@,
{
    dst.push_str(s);
}

/// A name for what String::from_utf8_lossy decodes from the given bytes.
pub uninterp spec fn lossy_utf8(b: Seq<u8>) -> Seq<char>;

/// Relies on String::from_utf8_lossy, for which vstd has no specification:
/// the decoded text is a function of the bytes alone.
#[verifier::external_body]
pub(crate) fn lossy_string(b: &[u8]) -> (r: String)
    ensures
        r@ == lossy_utf8(b@),
{
    String::from_utf8_lossy(b).into_owned()
}

impl OfdError {
    pub closed spec fn message_view(&self) -> Seq<char> {
        self.message@
    }

    pub closed spec fn extra_view(&self) -> Seq<char> {
        self.extra@
    }

    pub fn to_string(self) -> (r: String)
        ensures
            r@ == "\n===> err="@ + self.message_view() + " extra="@ + self.extra_view()
                + " <==="@,
    {
        let mut out = "\n===> err=".to_owned();
        append_str(&mut out, self.message.as_str());
        append_str(&mut out, " extra=");
        append_str(&mut out, self.extra.as_str());
        append_str(&mut out, " <===");
        out
    }

    pub fn from(message: &str, extra: String) -> (r: OfdError)
        ensures
            r.message_view() == message@,
            r.extra_view() == extra@,
    {
        OfdError { message: message.to_owned(), extra }
    }
}

} // verus!
