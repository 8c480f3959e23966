use vstd::prelude::*;

verus! {

/// What the upload endpoint answers: the uploaded file with the storage
/// figures, or an error.
pub enum UploadResult {
    Uploaded {
        /// Files uploaded before; `uploaded_file` is not among them.
        uploaded_in_past: Vec<UploadedObject>,
        /// Storage figures once the upload completed.
        storage: DiskQuota,
        /// The file just uploaded.
        uploaded_file: UploadedObject,
    },
    Rejected(UploadError),
}

/// Why an upload was rejected.
#[derive(Debug)]
pub enum UploadError {
    /// Several rejections from the remote side.
    Aggregate { errors: InnerAggregateError },
    /// One rejection from the remote side.
    Single { error: InnerError },
    /// The edit page held no CSRF token.
    UnableToObtainCsrfToken,
}

#[derive(Debug)]
pub struct InnerAggregateError {
    pub downloadable: Option<DownloadableError>,
}

#[derive(Debug)]
pub struct DownloadableError {
    pub file: DownloadableContentError,
}

/// Messages about the file's content: its format, that it is empty, that it is too small.
#[derive(Debug)]
pub struct DownloadableContentError(pub Vec<String>);

/// A single remote message, such as an authorization failure.
#[derive(Debug)]
pub struct InnerError(pub String);

pub struct FileId(pub u32);

pub struct ItemId(pub u32);

pub struct OpaqueFile {
    pub filename: String,
}

/// Storage figures of the account, in bytes.
pub struct DiskQuota {
    pub quota: usize,
    pub usage: usize,
}

impl DiskQuota {
    /// The bytes still free.
    pub fn left(&self) -> (r: usize)
        requires
            self.usage <= self.quota,
        ensures
            r == self.quota - self.usage,
    {
        self.quota - self.usage
    }
}

/// A file stored on the remote side.
pub struct UploadedObject {
    pub file_size: usize,
    pub name: String,
}

} // verus!
