use vstd::prelude::*;

use crate::blob::Blob;
use crate::config::Config;
use crate::text::same_text;
use crate::WorkErr;

verus! {

/// What the server holds between requests: the configuration, the published blob, and the
/// bytes of files already read from disk, by path.
///
/// The whole value is replaced at once when a refresh succeeds, so a reader never sees a
/// blob of one cycle with a cache of another.
#[derive(Debug)]
pub struct ServerData {
    pub config: Config,
    pub blob: Blob,
    pub file_cache: Vec<(String, Vec<u8>)>,
}

/// The bytes cached for `path`: those of its last entry.
pub open spec fn cached(entries: Seq<(String, Vec<u8>)>, path: Seq<char>) -> Option<Seq<u8>>
    decreases entries.len(),
{
    if entries.len() == 0 {
        None
    } else if entries.last().0@ == path {
        Some(entries.last().1@)
    } else {
        cached(entries.drop_last(), path)
    }
}

impl ServerData {
    /// Server data that publishes `blob`, with nothing cached.
    pub fn new(config: Config, blob: Blob) -> (r: ServerData)
        ensures
            r.config == config,
            r.blob == blob,
            r.file_cache@.len() == 0,
    {
        ServerData { config, blob, file_cache: Vec::new() }
    }

    /// The cached bytes of the file at `path`, if it was read before.
    pub fn cached_file(&self, path: &str) -> (r: Option<Vec<u8>>)
        ensures
            r is None <==> cached(self.file_cache@, path@) is None,
            r matches Some(b) ==> cached(self.file_cache@, path@) == Some(b@),
    {
        let mut k = self.file_cache.len();
        assert(self.file_cache@.subrange(0, k as int) =~= self.file_cache@);
        while k > 0
            invariant
                k <= self.file_cache@.len(),
                cached(self.file_cache@, path@) == cached(
                    self.file_cache@.subrange(0, k as int),
                    path@,
                ),
            decreases k,
        {
            let ghost prefix = self.file_cache@.subrange(0, k as int);
            if same_text(self.file_cache[k - 1].0.as_str(), path) {
                let b = self.file_cache[k - 1].1.clone();
                assert(b@ =~= self.file_cache@[k - 1].1@);
                return Some(b);
            }
            assert(prefix.drop_last() =~= self.file_cache@.subrange(0, k - 1));
            k = k - 1;
        }
        None
    }

    /// Caches the bytes read from the file at `path`.
    pub fn cache_file(&mut self, path: String, bytes: Vec<u8>)
        ensures
            final(self).config == old(self).config,
            final(self).blob == old(self).blob,
            forall|p: Seq<char>|
                #[trigger] cached(final(self).file_cache@, p) == if p == path@ {
                    Some(bytes@)
                } else {
                    cached(old(self).file_cache@, p)
                },
    {
        let ghost before = self.file_cache@;
        self.file_cache.push((path, bytes));
        assert(self.file_cache@.drop_last() =~= before);
    }

    /// Applies the outcome of a refresh. A new blob replaces the published one, and the
    /// file cache is emptied with it. A failure changes nothing and is handed back.
    pub fn publish(&mut self, outcome: Result<Blob, WorkErr>) -> (r: Result<(), WorkErr>)
        ensures
            match outcome {
                Ok(b) => r is Ok && final(self).blob == b && final(self).config == old(self).config
                    && final(self).file_cache@.len() == 0,
                Err(e) => r == Err::<(), WorkErr>(e) && *final(self) == *old(self),
            },
    {
        match outcome {
            Ok(b) => {
                self.blob = b;
                self.file_cache = Vec::new();
                Ok(())
            },
            Err(e) => Err(e),
        }
    }
}

/// What a request asks for.
#[derive(Debug)]
pub enum Route {
    /// The published blob.
    Data,
    /// The index document.
    Index,
    /// A static file, by its path under the static root.
    Static(String),
    /// Nothing this server serves.
    Unknown,
}

/// `s` starts with `prefix`.
pub open spec fn starts_with(s: Seq<char>, prefix: Seq<char>) -> bool {
    prefix.len() <= s.len() && s.subrange(0, prefix.len() as int) == prefix
}

/// Routes a request by its method and path: anything but GET is unknown, `/data` (with or
/// without a trailing slash) asks for the blob, `/static/<p>` for static file `p`, and any
/// other path for the index document.
pub fn route(is_get: bool, path: &str) -> (r: Route)
    ensures
        !is_get ==> r is Unknown,
        is_get && (path@ == "/data"@ || path@ == "/data/"@) ==> r is Data,
        is_get && path@ != "/data"@ && path@ != "/data/"@ && starts_with(path@, "/static/"@)
            ==> (r matches Route::Static(p) && p@ == path@.skip(8)),
        is_get && path@ != "/data"@ && path@ != "/data/"@ && !starts_with(path@, "/static/"@)
            ==> r is Index,
{
    if !is_get {
        return Route::Unknown;
    }
    if same_text(path, "/data") || same_text(path, "/data/") {
        return Route::Data;
    }
    let n = path.unicode_len();
    proof {
        reveal_strlit("/static/");
    }
    if n >= 8 && same_text(path.substring_char(0, 8), "/static/") {
        let rest = path.substring_char(8, n).to_owned();
        assert(path@.subrange(8, n as int) =~= path@.skip(8));
        return Route::Static(rest);
    }
    Route::Index
}

/// The media type guessed from the extension of `path`.
pub uninterp spec fn guessed_media_type(path: Seq<char>) -> Seq<char>;

/// Relies on `mime_guess::from_path(..).first_or_octet_stream()`: the first media type
/// known for the extension of `path`, or `application/octet-stream`. It reads the path's
/// text only.
#[verifier::external_body]
fn guess_media_type(path: &str) -> (r: String)
    ensures
        r@ == guessed_media_type(path@),
{
    mime_guess::from_path(path).first_or_octet_stream().to_string()
}

/// The content type of the response to `route`, where `file_path` is the file that a
/// static route reads.
pub fn content_type(route: &Route, file_path: &str) -> (r: String)
    ensures
        route is Data ==> r@ == "application/json"@,
        route is Index ==> r@ == "text/html; charset=utf-8"@,
        route is Static ==> r@ == guessed_media_type(file_path@),
        route is Unknown ==> r@ == "text/plain; charset=utf-8"@,
{
    match route {
        Route::Data => String::from_str("application/json"),
        Route::Index => String::from_str("text/html; charset=utf-8"),
        Route::Static(_) => guess_media_type(file_path),
        Route::Unknown => String::from_str("text/plain; charset=utf-8"),
    }
}

} // verus!
