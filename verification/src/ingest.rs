use vstd::prelude::*;

use crate::error::{ErrorView, UploadError};
use crate::text::str_contains_char;

verus! {

/// Fingerprint accumulators cross this module opaquely; what they have seen
/// is tracked by `hasher_fed`.
#[verifier::external_type_specification]
#[verifier::external_body]
pub struct ExBlake3Hasher(blake3::Hasher);

/// The bytes a fingerprint accumulator has been fed so far.
pub uninterp spec fn hasher_fed(h: blake3::Hasher) -> Seq<u8>;

/// The 64 lowercase hex characters of the 256-bit fingerprint of `bytes`;
/// a pure function of the bytes.
pub uninterp spec fn blake3_hex_of(bytes: Seq<u8>) -> Seq<char>;

/// Whether `c` is a lowercase hex digit.
pub open spec fn spec_is_hex_char(c: char) -> bool {
    ||| 48 <= c as u32 <= 57
    ||| 97 <= c as u32 <= 102
}

/// Relies on blake3::Hasher::new: a fresh accumulator has seen no bytes.
#[verifier::external_body]
fn hasher_new() -> (h: blake3::Hasher)
    ensures
        hasher_fed(h) == Seq::<u8>::empty(),
{
    blake3::Hasher::new()
}

/// Relies on blake3::Hasher::update: appends exactly the chunk to what the
/// accumulator has seen.
#[verifier::external_body]
fn hasher_update(h: &mut blake3::Hasher, chunk: &[u8])
    ensures
        hasher_fed(*final(h)) == hasher_fed(*old(h)) + chunk@,
{
    h.update(chunk);
}

/// Relies on blake3::Hasher::finalize and Hash::to_hex: the fingerprint of
/// the fed bytes as 64 lowercase hex characters, a pure function of those
/// bytes (finalize does not disturb the accumulator).
#[verifier::external_body]
fn hasher_hex(h: &blake3::Hasher) -> (r: String)
    ensures
        r@ == blake3_hex_of(hasher_fed(*h)),
        r@.len() == 64,
        forall|i: int| 0 <= i < r@.len() ==> spec_is_hex_char(r@[i]),
{
    let hex = h.finalize().to_hex();
    hex.as_str().to_owned()
}

/// Refuse a filename that holds a path separator.
pub fn validate_filename(filename: &str) -> (r: Result<(), UploadError>)
    ensures
        match r {
            Ok(_) => !filename@.contains('/'),
            Err(e) => filename@.contains('/') && e@ == ErrorView::InvalidFilename,
        },
{
    if str_contains_char(filename, '/') {
        Err(UploadError::InvalidFilename)
    } else {
        Ok(())
    }
}

/// The name a finished upload is committed under: the first 8 hex characters
/// of the content fingerprint, an underscore, and the filename.
pub open spec fn spec_committed_name(content: Seq<u8>, filename: Seq<char>) -> Seq<char> {
    blake3_hex_of(content).take(8) + "_"@ + filename
}

/// What the pre-stream checks yield: a declared length of zero is an empty
/// body, one over the limit is refused before any byte arrives, and the
/// filename must hold no path separator.
pub open spec fn spec_begin(filename: Seq<char>, declared: Option<u64>, max_size: u64) -> Result<
    (),
    ErrorView,
> {
    match declared {
        Some(n) => if n == 0 {
            Err(ErrorView::InvalidBody)
        } else if n > max_size {
            Err(ErrorView::FileIsTooBig(max_size))
        } else if filename.contains('/') {
            Err(ErrorView::InvalidFilename)
        } else {
            Ok(())
        },
        None => if filename.contains('/') {
            Err(ErrorView::InvalidFilename)
        } else {
            Ok(())
        },
    }
}

/// The streaming core of one upload: it counts and fingerprints the bytes
/// and enforces the limits. The caller streams the same bytes into a
/// temporary file, appending a chunk only when `accept_chunk` accepted it,
/// and renames to the committed name only when `finish` returns one.
pub struct IngestCore {
    pub filename: String,
    pub declared: Option<u64>,
    pub max_size: u64,
    pub received: u64,
    pub got_data: bool,
    pub hasher: blake3::Hasher,
}

impl IngestCore {
    /// The counters agree with what the accumulator has seen, and the limit
    /// was never crossed.
    pub open spec fn wf(&self) -> bool {
        &&& self.received <= self.max_size
        &&& hasher_fed(self.hasher).len() == self.received
        &&& (!self.got_data ==> self.received == 0 && hasher_fed(self.hasher)
            == Seq::<u8>::empty())
    }

    /// The checks before any byte arrives.
    pub fn begin(filename: String, declared: Option<u64>, max_size: u64) -> (r: Result<
        IngestCore,
        UploadError,
    >)
        ensures
            match r {
                Ok(core) => spec_begin(filename@, declared, max_size) == Ok::<(), ErrorView>(())
                    && core.wf() && core.filename@ == filename@ && core.declared == declared
                    && core.max_size == max_size && core.received == 0 && !core.got_data,
                Err(e) => spec_begin(filename@, declared, max_size) == Err::<(), ErrorView>(e@),
            },
    {
        if let Some(n) = declared {
            if n == 0 {
                return Err(UploadError::InvalidBody);
            }
            if n > max_size {
                return Err(UploadError::FileIsTooBig(max_size));
            }
        }
        if let Err(e) = validate_filename(filename.as_str()) {
            return Err(e);
        }
        Ok(
            IngestCore {
                filename,
                declared,
                max_size,
                received: 0,
                got_data: false,
                hasher: hasher_new(),
            },
        )
    }

    /// Count and fingerprint one chunk. The instant the running total would
    /// cross the limit the upload is over, whatever any declared length said:
    /// the chunk is refused, nothing is recorded, and the caller must delete
    /// the temporary file.
    pub fn accept_chunk(&mut self, chunk: &[u8]) -> (r: Result<(), UploadError>)
        requires
            old(self).wf(),
        ensures
            final(self).wf(),
            final(self).filename == old(self).filename,
            final(self).declared == old(self).declared,
            final(self).max_size == old(self).max_size,
            match r {
                Ok(_) => {
                    &&& old(self).received + chunk@.len() <= old(self).max_size
                    &&& final(self).received == old(self).received + chunk@.len()
                    &&& final(self).got_data
                    &&& hasher_fed(final(self).hasher) == hasher_fed(old(self).hasher) + chunk@
                },
                Err(e) => {
                    &&& old(self).received + chunk@.len() > old(self).max_size
                    &&& e@ == ErrorView::FileIsTooBig(old(self).max_size)
                    &&& *final(self) == *old(self)
                },
            },
    {
        let len = chunk.len() as u64;
        if len > self.max_size - self.received {
            return Err(UploadError::FileIsTooBig(self.max_size));
        }
        hasher_update(&mut self.hasher, chunk);
        self.received = self.received + len;
        self.got_data = true;
        Ok(())
    }

    /// Close the stream: no chunk at all is an empty body; a declared length
    /// exceeding what actually arrived is an incomplete upload; otherwise the
    /// upload is committed under the fingerprint-derived name.
    pub fn finish(self) -> (r: Result<String, UploadError>)
        requires
            self.wf(),
        ensures
            match r {
                Ok(name) => self.got_data && (match self.declared {
                    Some(n) => n <= self.received,
                    None => true,
                }) && name@ == spec_committed_name(hasher_fed(self.hasher), self.filename@),
                Err(e) => match e@ {
                    ErrorView::InvalidBody => !self.got_data,
                    ErrorView::IncompleteUpload(announced, actual) => self.got_data
                        && self.declared == Some(announced) && announced > self.received && actual
                        == self.received,
                    _ => false,
                },
            },
    {
        if !self.got_data {
            return Err(UploadError::InvalidBody);
        }
        if let Some(n) = self.declared {
            if n > self.received {
                return Err(UploadError::IncompleteUpload(n, self.received));
            }
        }
        let hex = hasher_hex(&self.hasher);
        let prefix = hex.as_str().substring_char(0, 8);
        let mut name = String::from_str(prefix);
        name.append("_");
        name.append(self.filename.as_str());
        proof {
            assert(hex@.subrange(0, 8) =~= blake3_hex_of(hasher_fed(self.hasher)).take(8));
        }
        Ok(name)
    }
}

/// The temporary name an upload streams into — never the final name, so a
/// reader never observes a partially written file under a public name.
pub fn temp_upload_name(prefix: &str, filename: &str) -> (r: String)
    ensures
        r@ == prefix@ + "_"@ + filename@ + ".partial"@,
{
    let mut name = String::from_str(prefix);
    name.append("_");
    name.append(filename);
    name.append(".partial");
    name
}

/// Whether `s` ends with `suffix`.
pub open spec fn spec_ends_with(s: Seq<char>, suffix: Seq<char>) -> bool {
    s.len() >= suffix.len() && s.subrange(s.len() - suffix.len(), s.len() as int) == suffix
}

/// Whether a stored name is a leftover temporary upload, to be swept away.
#[verifier::loop_isolation(false)]
pub fn is_partial_name(name: &str) -> (r: bool)
    ensures
        r == spec_ends_with(name@, ".partial"@),
{
    let suffix = ".partial";
    proof {
        reveal_strlit(".partial");
    }
    let name_len = name.unicode_len();
    let suffix_len = suffix.unicode_len();
    if name_len < suffix_len {
        return false;
    }
    let mut i: usize = 0;
    while i < suffix_len
        invariant
            i <= suffix_len,
            suffix_len <= name_len,
            name_len == name@.len(),
            suffix_len == ".partial"@.len(),
            forall|j: int| 0 <= j < i ==> name@[name@.len() - suffix_len + j] == ".partial"@[j],
        decreases suffix_len - i,
    {
        if name.get_char(name_len - suffix_len + i) != suffix.get_char(i) {
            proof {
                assert(name@.subrange(name@.len() - suffix_len, name@.len() as int)[i as int]
                    != ".partial"@[i as int]);
            }
            return false;
        }
        i = i + 1;
    }
    proof {
        assert(name@.subrange(name@.len() - suffix_len, name@.len() as int) =~= ".partial"@);
    }
    true
}

/// The public retrieval link for a committed name.
pub fn link_for(name: &str) -> (r: String)
    ensures
        r@ == "/d/"@ + name@,
{
    let mut link = String::from_str("/d/");
    link.append(name);
    link
}

} // verus!
