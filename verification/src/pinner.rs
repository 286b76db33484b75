//! The local cache of pinned blobs.
use vstd::prelude::*;
use crate::digest::{same_digest, sha256, sha256_digest};
use crate::error::{PinError, PinErrorView};
use crate::fetch::{Action, ActionView, Fetch, FetchView};
use crate::model::{is_valid_model_id, strip_0x, valid_model_id, without_0x, ModelEntry, ModelView};
use crate::text::join_text;

verus! {

/// A pinner with its cache directory. How a directory is named is up to the
/// program around it: nothing here looks inside a `D`.
pub struct Pinner<D> {
    cache_dir: D,
}

/// Where a blob is cached: a file directly inside the cache directory.
pub struct CachePath<'a, D> {
    pub root: &'a D,
    pub file_name: String,
}

/// The name of the file that caches a model: the identifier without `0x`, and
/// `.bin`.
pub open spec fn cache_file_name(model_id: Seq<char>) -> Seq<char> {
    without_0x(model_id) + ".bin"@
}

/// What was found where a blob would be cached: no file, one that could not be
/// read, with the text of the error, or its bytes.
#[derive(Debug)]
pub enum CacheFile {
    Missing,
    Unreadable(String),
    Contents(Vec<u8>),
}

/// What was found in the cache, with its contents as sequences.
#[verifier::ext_equal]
pub enum CacheFileView {
    Missing,
    Unreadable(Seq<char>),
    Contents(Seq<u8>),
}

impl View for CacheFile {
    type V = CacheFileView;

    open spec fn view(&self) -> CacheFileView {
        match *self {
            CacheFile::Missing => CacheFileView::Missing,
            CacheFile::Unreadable(e) => CacheFileView::Unreadable(e@),
            CacheFile::Contents(b) => CacheFileView::Contents(b@),
        }
    }
}

/// Whether a verified copy is cached: a file whose digest is the expected one.
pub open spec fn cache_state(entry: ModelView, file: CacheFileView) -> Result<bool, PinErrorView> {
    match file {
        CacheFileView::Missing => Ok(false),
        CacheFileView::Unreadable(e) => Err(PinErrorView::Io(e)),
        CacheFileView::Contents(b) => Ok(sha256_digest(b) == entry.expected_sha256),
    }
}

/// Whether what was found in the cache is a verified copy of a model.
pub(crate) fn cache_holds(entry: &ModelEntry, file: &CacheFile) -> (r: Result<bool, PinError>)
    ensures
        match r {
            Ok(b) => cache_state(entry@, file@) == Ok::<_, PinErrorView>(b),
            Err(e) => cache_state(entry@, file@) == Err::<bool, _>(e@),
        },
{
    match file {
        CacheFile::Missing => Ok(false),
        CacheFile::Unreadable(e) => Err(PinError::Io(e.clone())),
        CacheFile::Contents(b) => Ok(
            same_digest(&sha256(b.as_slice()), &entry.expected_sha256),
        ),
    }
}

/// The name of the file that caches a model.
pub(crate) fn file_name_of(model_id: &str) -> (r: String)
    ensures
        r@ == cache_file_name(model_id@),
{
    join_text(strip_0x(model_id), ".bin")
}

impl<D> Pinner<D> {
    /// The cache directory.
    pub closed spec fn root(self) -> D {
        self.cache_dir
    }

    /// A pinner that caches in the given directory.
    pub fn new(cache_dir: D) -> (r: Pinner<D>)
        ensures
            r.root() == cache_dir,
    {
        Pinner { cache_dir }
    }

    /// Where a model is cached.
    pub fn cache_path(&self, model_id: &str) -> (r: CachePath<'_, D>)
        requires
            valid_model_id(model_id@),
        ensures
            *r.root == self.root(),
            r.file_name@ == cache_file_name(model_id@),
    {
        CachePath { root: &self.cache_dir, file_name: file_name_of(model_id) }
    }

    /// Where a model is cached; an identifier that is not well-formed is an error.
    pub fn try_cache_path(&self, model_id: &str) -> (r: Result<CachePath<'_, D>, PinError>)
        ensures
            match r {
                Ok(p) => {
                    &&& valid_model_id(model_id@)
                    &&& *p.root == self.root()
                    &&& p.file_name@ == cache_file_name(model_id@)
                },
                Err(e) => {
                    &&& !valid_model_id(model_id@)
                    &&& e@ == PinErrorView::InvalidModelId(model_id@)
                },
            },
    {
        if !is_valid_model_id(model_id) {
            return Err(PinError::InvalidModelId(model_id.to_string()));
        }
        Ok(self.cache_path(model_id))
    }

    /// Whether a verified copy is cached, given what was found at the model's
    /// cache path.
    pub fn is_cached(&self, entry: &ModelEntry, file: &CacheFile) -> (r: Result<bool, PinError>)
        requires
            valid_model_id(entry.model_id@),
        ensures
            match r {
                Ok(b) => cache_state(entry@, file@) == Ok::<_, PinErrorView>(b),
                Err(e) => cache_state(entry@, file@) == Err::<bool, _>(e@),
            },
    {
        cache_holds(entry, file)
    }

    /// Starts to fetch and pin a model: the first thing to do is to look into the
    /// cache. `Fetch::step` says what to do after that.
    pub fn fetch_and_pin<'a>(&self, entry: &'a ModelEntry) -> (r: (Fetch<'a>, Action))
        requires
            valid_model_id(entry.model_id@),
        ensures
            r.0@ == FetchView::initial(entry@),
            r.0@.wf(),
            r.1@ == (ActionView::ReadCache { file_name: cache_file_name(entry.model_id@) }),
    {
        Fetch::start(entry)
    }

    /// The cached blob of a model, given what reading its cache path gave.
    pub fn serve(&self, model_id: &str, read: Result<Vec<u8>, String>) -> (r: Result<
        Vec<u8>,
        PinError,
    >)
        requires
            valid_model_id(model_id@),
        ensures
            match (read, r) {
                (Ok(found), Ok(served)) => served == found,
                (Err(e), Err(p)) => p@ == PinErrorView::Io(e@),
                _ => false,
            },
    {
        match read {
            Ok(found) => Ok(found),
            Err(e) => Err(PinError::Io(e)),
        }
    }

    /// Where a model is pinned, which is where it is cached.
    pub fn pin_path(&self, model_id: &str) -> (r: CachePath<'_, D>)
        requires
            valid_model_id(model_id@),
        ensures
            *r.root == self.root(),
            r.file_name@ == cache_file_name(model_id@),
    {
        self.cache_path(model_id)
    }

    /// The cache directory.
    pub fn cache_root(&self) -> (r: &D)
        ensures
            *r == self.root(),
    {
        &self.cache_dir
    }
}

} // verus!
