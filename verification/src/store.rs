use vstd::prelude::*;

use crate::error::{ErrorView, UploadError};
use crate::file_data::{spec_expired_at, FileData};
use crate::ingest::{
    blake3_hex_of, hasher_fed, spec_begin, spec_committed_name, temp_upload_name, IngestCore,
};
use crate::resolve::{resolve_access, spec_auth_error_view, spec_resolve, AccessDecision, Resolution};
use crate::text::str_eq;

verus! {

/// All chunks in order, as one byte sequence.
pub open spec fn spec_concat_bytes(chunks: Seq<Vec<u8>>) -> Seq<u8>
    decreases chunks.len(),
{
    if chunks.len() == 0 {
        Seq::empty()
    } else {
        spec_concat_bytes(chunks.drop_last()) + chunks.last()@
    }
}

proof fn lemma_concat_take_step(chunks: Seq<Vec<u8>>, i: int)
    requires
        0 <= i < chunks.len(),
    ensures
        spec_concat_bytes(chunks.take(i + 1)) == spec_concat_bytes(chunks.take(i)) + chunks[i]@,
{
    assert(chunks.take(i + 1).drop_last() =~= chunks.take(i));
    assert(chunks.take(i + 1).last() == chunks[i]);
}

proof fn lemma_concat_take_len(chunks: Seq<Vec<u8>>, i: int)
    requires
        0 <= i <= chunks.len(),
    ensures
        spec_concat_bytes(chunks.take(i)).len() <= spec_concat_bytes(chunks).len(),
    decreases chunks.len() - i,
{
    if i < chunks.len() {
        lemma_concat_take_step(chunks, i);
        lemma_concat_take_len(chunks, i + 1);
    } else {
        assert(chunks.take(i) =~= chunks);
    }
}

/// What the model upload yields: the pre-stream checks; an empty stream is an
/// empty body; the streamed total must stay within the limit (the cumulative
/// check makes the total decisive, whatever any declared length said); a
/// declared length exceeding what arrived is an incomplete upload; otherwise
/// the content is committed under its fingerprint-derived name.
pub open spec fn spec_upload_outcome(
    filename: Seq<char>,
    declared: Option<u64>,
    max_size: u64,
    chunks: Seq<Vec<u8>>,
) -> Result<Seq<char>, ErrorView> {
    match spec_begin(filename, declared, max_size) {
        Err(e) => Err(e),
        Ok(_) => {
            let content = spec_concat_bytes(chunks);
            if chunks.len() == 0 {
                Err(ErrorView::InvalidBody)
            } else if content.len() > max_size {
                Err(ErrorView::FileIsTooBig(max_size))
            } else {
                match declared {
                    Some(n) => if n > content.len() {
                        Err(ErrorView::IncompleteUpload(n, content.len() as u64))
                    } else {
                        Ok(spec_committed_name(content, filename))
                    },
                    None => Ok(spec_committed_name(content, filename)),
                }
            }
        },
    }
}

/// Association list of named blobs as a map from names to contents.
pub open spec fn spec_blob_map(pairs: Seq<(String, Vec<u8>)>) -> Map<Seq<char>, Seq<u8>>
    decreases pairs.len(),
{
    if pairs.len() == 0 {
        Map::empty()
    } else {
        spec_blob_map(pairs.drop_last()).insert(pairs.last().0@, pairs.last().1@)
    }
}

/// Association list of named records as a map from names to records.
pub open spec fn spec_record_map(pairs: Seq<(String, FileData)>) -> Map<Seq<char>, FileData>
    decreases pairs.len(),
{
    if pairs.len() == 0 {
        Map::empty()
    } else {
        spec_record_map(pairs.drop_last()).insert(pairs.last().0@, pairs.last().1)
    }
}

/// Whether `k` is among the first `t` collected names.
spec fn spec_named_before(names: Seq<String>, t: int, k: Seq<char>) -> bool {
    exists|m: int| 0 <= m < t && #[trigger] names[m]@ == k
}

/// No name occurs twice.
pub open spec fn spec_unique_blob_keys(pairs: Seq<(String, Vec<u8>)>) -> bool {
    forall|i: int, j: int| 0 <= i < j < pairs.len() ==> pairs[i].0@ != pairs[j].0@
}

/// No name occurs twice.
pub open spec fn spec_unique_record_keys(pairs: Seq<(String, FileData)>) -> bool {
    forall|i: int, j: int| 0 <= i < j < pairs.len() ==> pairs[i].0@ != pairs[j].0@
}

proof fn lemma_blob_map_contains(pairs: Seq<(String, Vec<u8>)>, k: Seq<char>)
    ensures
        spec_blob_map(pairs).contains_key(k) <==> exists|i: int|
            0 <= i < pairs.len() && pairs[i].0@ == k,
    decreases pairs.len(),
{
    if pairs.len() > 0 {
        lemma_blob_map_contains(pairs.drop_last(), k);
        if pairs.last().0@ == k {
            assert(pairs[pairs.len() - 1].0@ == k);
        } else {
            if spec_blob_map(pairs).contains_key(k) {
                let i = choose|i: int|
                    0 <= i < pairs.drop_last().len() && pairs.drop_last()[i].0@ == k;
                assert(pairs[i].0@ == k);
            }
            if exists|i: int| 0 <= i < pairs.len() && pairs[i].0@ == k {
                let i = choose|i: int| 0 <= i < pairs.len() && pairs[i].0@ == k;
                assert(pairs.drop_last()[i].0@ == k);
            }
        }
    }
}

proof fn lemma_record_map_contains(pairs: Seq<(String, FileData)>, k: Seq<char>)
    ensures
        spec_record_map(pairs).contains_key(k) <==> exists|i: int|
            0 <= i < pairs.len() && pairs[i].0@ == k,
    decreases pairs.len(),
{
    if pairs.len() > 0 {
        lemma_record_map_contains(pairs.drop_last(), k);
        if pairs.last().0@ == k {
            assert(pairs[pairs.len() - 1].0@ == k);
        } else {
            if spec_record_map(pairs).contains_key(k) {
                let i = choose|i: int|
                    0 <= i < pairs.drop_last().len() && pairs.drop_last()[i].0@ == k;
                assert(pairs[i].0@ == k);
            }
            if exists|i: int| 0 <= i < pairs.len() && pairs[i].0@ == k {
                let i = choose|i: int| 0 <= i < pairs.len() && pairs[i].0@ == k;
                assert(pairs.drop_last()[i].0@ == k);
            }
        }
    }
}

proof fn lemma_blob_map_index(pairs: Seq<(String, Vec<u8>)>, i: int)
    requires
        spec_unique_blob_keys(pairs),
        0 <= i < pairs.len(),
    ensures
        spec_blob_map(pairs).contains_key(pairs[i].0@),
        spec_blob_map(pairs)[pairs[i].0@] == pairs[i].1@,
    decreases pairs.len(),
{
    if i < pairs.len() - 1 {
        assert(spec_unique_blob_keys(pairs.drop_last()));
        assert(pairs.drop_last()[i] == pairs[i]);
        lemma_blob_map_index(pairs.drop_last(), i);
        assert(pairs.last().0@ != pairs[i].0@);
    }
}

proof fn lemma_record_map_index(pairs: Seq<(String, FileData)>, i: int)
    requires
        spec_unique_record_keys(pairs),
        0 <= i < pairs.len(),
    ensures
        spec_record_map(pairs).contains_key(pairs[i].0@),
        spec_record_map(pairs)[pairs[i].0@] == pairs[i].1,
    decreases pairs.len(),
{
    if i < pairs.len() - 1 {
        assert(spec_unique_record_keys(pairs.drop_last()));
        assert(pairs.drop_last()[i] == pairs[i]);
        lemma_record_map_index(pairs.drop_last(), i);
        assert(pairs.last().0@ != pairs[i].0@);
    }
}

proof fn lemma_blob_map_remove(pairs: Seq<(String, Vec<u8>)>, i: int)
    requires
        spec_unique_blob_keys(pairs),
        0 <= i < pairs.len(),
    ensures
        spec_blob_map(pairs.remove(i)) == spec_blob_map(pairs).remove(pairs[i].0@),
        spec_unique_blob_keys(pairs.remove(i)),
    decreases pairs.len(),
{
    let k = pairs[i].0@;
    assert(spec_unique_blob_keys(pairs.remove(i))) by {
        assert forall|a: int, b: int|
            0 <= a < b < pairs.remove(i).len() implies pairs.remove(i)[a].0@ != pairs.remove(
            i,
        )[b].0@ by {
            let a0 = if a < i {
                a
            } else {
                a + 1
            };
            let b0 = if b < i {
                b
            } else {
                b + 1
            };
            assert(pairs.remove(i)[a] == pairs[a0]);
            assert(pairs.remove(i)[b] == pairs[b0]);
        }
    }
    if i == pairs.len() - 1 {
        assert(pairs.remove(i) =~= pairs.drop_last());
        lemma_blob_map_contains(pairs.drop_last(), k);
        assert(forall|j: int| 0 <= j < pairs.drop_last().len() ==> pairs.drop_last()[j].0@ != k);
        assert(!spec_blob_map(pairs.drop_last()).contains_key(k));
        assert(spec_blob_map(pairs).remove(k) =~= spec_blob_map(pairs.drop_last()));
    } else {
        assert(spec_unique_blob_keys(pairs.drop_last()));
        assert(pairs.remove(i).drop_last() =~= pairs.drop_last().remove(i));
        assert(pairs.remove(i).last() == pairs.last());
        assert(pairs.drop_last()[i] == pairs[i]);
        lemma_blob_map_remove(pairs.drop_last(), i);
        assert(pairs.last().0@ != k);
        assert(spec_blob_map(pairs).remove(k) =~= spec_blob_map(pairs.drop_last()).remove(k).insert(
            pairs.last().0@,
            pairs.last().1@,
        ));
    }
}

proof fn lemma_record_map_remove(pairs: Seq<(String, FileData)>, i: int)
    requires
        spec_unique_record_keys(pairs),
        0 <= i < pairs.len(),
    ensures
        spec_record_map(pairs.remove(i)) == spec_record_map(pairs).remove(pairs[i].0@),
        spec_unique_record_keys(pairs.remove(i)),
    decreases pairs.len(),
{
    let k = pairs[i].0@;
    assert(spec_unique_record_keys(pairs.remove(i))) by {
        assert forall|a: int, b: int|
            0 <= a < b < pairs.remove(i).len() implies pairs.remove(i)[a].0@ != pairs.remove(
            i,
        )[b].0@ by {
            let a0 = if a < i {
                a
            } else {
                a + 1
            };
            let b0 = if b < i {
                b
            } else {
                b + 1
            };
            assert(pairs.remove(i)[a] == pairs[a0]);
            assert(pairs.remove(i)[b] == pairs[b0]);
        }
    }
    if i == pairs.len() - 1 {
        assert(pairs.remove(i) =~= pairs.drop_last());
        lemma_record_map_contains(pairs.drop_last(), k);
        assert(forall|j: int| 0 <= j < pairs.drop_last().len() ==> pairs.drop_last()[j].0@ != k);
        assert(!spec_record_map(pairs.drop_last()).contains_key(k));
        assert(spec_record_map(pairs).remove(k) =~= spec_record_map(pairs.drop_last()));
    } else {
        assert(spec_unique_record_keys(pairs.drop_last()));
        assert(pairs.remove(i).drop_last() =~= pairs.drop_last().remove(i));
        assert(pairs.remove(i).last() == pairs.last());
        assert(pairs.drop_last()[i] == pairs[i]);
        lemma_record_map_remove(pairs.drop_last(), i);
        assert(pairs.last().0@ != k);
        assert(spec_record_map(pairs).remove(k) =~= spec_record_map(
            pairs.drop_last(),
        ).remove(k).insert(pairs.last().0@, pairs.last().1));
    }
}

/// Index of the first pair with the given name.
fn find_index<V>(pairs: &Vec<(String, V)>, name: &str) -> (r: Option<usize>)
    ensures
        match r {
            Some(i) => i < pairs@.len() && pairs@[i as int].0@ == name@,
            None => forall|j: int| 0 <= j < pairs@.len() ==> pairs@[j].0@ != name@,
        },
{
    let mut i: usize = 0;
    while i < pairs.len()
        invariant
            i <= pairs@.len(),
            forall|j: int| 0 <= j < i ==> pairs@[j].0@ != name@,
        decreases pairs@.len() - i,
    {
        if str_eq(pairs[i].0.as_str(), name) {
            return Some(i);
        }
        i = i + 1;
    }
    None
}

/// A byte-for-byte copy.
fn copy_bytes(data: &Vec<u8>) -> (r: Vec<u8>)
    ensures
        r@ == data@,
{
    let mut r: Vec<u8> = Vec::new();
    let mut i: usize = 0;
    while i < data.len()
        invariant
            i <= data@.len(),
            r@ == data@.take(i as int),
        decreases data@.len() - i,
    {
        r.push(data[i]);
        proof {
            assert(data@.take(i as int).push(data@[i as int]) =~= data@.take(i as int + 1));
        }
        i = i + 1;
    }
    proof {
        assert(data@.take(data@.len() as int) =~= data@);
    }
    r
}

/// An in-memory model of the storage directory pair: blobs by name and the
/// optional record beside each. The unverified shell drives the same
/// lifecycle against a real directory; the logic is verified — and testable —
/// against this model. Every operation is total: deleting what is already
/// gone is a no-op, as the expiry race demands.
pub struct Store {
    blobs: Vec<(String, Vec<u8>)>,
    records: Vec<(String, FileData)>,
}

impl Store {
    /// Names are unique on both sides.
    pub closed spec fn wf(&self) -> bool {
        spec_unique_blob_keys(self.blobs@) && spec_unique_record_keys(self.records@)
    }

    /// The stored blobs, as a map from names to contents.
    pub closed spec fn blobs_view(&self) -> Map<Seq<char>, Seq<u8>> {
        spec_blob_map(self.blobs@)
    }

    /// The stored records, as a map from names to records.
    pub closed spec fn records_view(&self) -> Map<Seq<char>, FileData> {
        spec_record_map(self.records@)
    }

    /// The empty store.
    pub fn new() -> (r: Store)
        ensures
            r.wf(),
            r.blobs_view() == Map::<Seq<char>, Seq<u8>>::empty(),
            r.records_view() == Map::<Seq<char>, FileData>::empty(),
    {
        Store { blobs: Vec::new(), records: Vec::new() }
    }

    /// Whether a blob of this name is stored.
    pub fn has_blob(&self, name: &str) -> (r: bool)
        requires
            self.wf(),
        ensures
            r == self.blobs_view().contains_key(name@),
    {
        proof {
            lemma_blob_map_contains(self.blobs@, name@);
        }
        match find_index(&self.blobs, name) {
            Some(_) => true,
            None => false,
        }
    }

    /// The blob stored under this name.
    pub fn get_blob(&self, name: &str) -> (r: Option<&Vec<u8>>)
        requires
            self.wf(),
        ensures
            match r {
                Some(data) => self.blobs_view().contains_key(name@)
                    && data@ == self.blobs_view()[name@],
                None => !self.blobs_view().contains_key(name@),
            },
    {
        proof {
            lemma_blob_map_contains(self.blobs@, name@);
        }
        match find_index(&self.blobs, name) {
            Some(i) => {
                proof {
                    lemma_blob_map_index(self.blobs@, i as int);
                }
                Some(&self.blobs[i].1)
            }
            None => None,
        }
    }

    /// Store a blob under this name, replacing any previous one.
    pub fn put_blob(&mut self, name: &str, data: Vec<u8>)
        requires
            old(self).wf(),
        ensures
            final(self).wf(),
            final(self).blobs_view() == old(self).blobs_view().insert(name@, data@),
            final(self).records_view() == old(self).records_view(),
    {
        self.delete_blob(name);
        proof {
            lemma_blob_map_contains(self.blobs@, name@);
            assert(!spec_blob_map(self.blobs@).contains_key(name@));
        }
        let ghost before = self.blobs@;
        self.blobs.push((String::from_str(name), data));
        proof {
            assert(self.blobs@.drop_last() =~= before);
            assert(spec_unique_blob_keys(self.blobs@)) by {
                assert forall|a: int, b: int|
                    0 <= a < b < self.blobs@.len() implies self.blobs@[a].0@ != self.blobs@[b].0@ by {
                    if b == self.blobs@.len() - 1 {
                        assert(before[a].0@ != name@);
                    }
                }
            }
            assert(old(self).blobs_view().insert(name@, data@) =~= spec_blob_map(self.blobs@));
        }
    }

    /// Delete the blob of this name; deleting an absent one is a no-op.
    pub fn delete_blob(&mut self, name: &str)
        requires
            old(self).wf(),
        ensures
            final(self).wf(),
            final(self).blobs_view() == old(self).blobs_view().remove(name@),
            final(self).records_view() == old(self).records_view(),
    {
        match find_index(&self.blobs, name) {
            Some(i) => {
                proof {
                    lemma_blob_map_remove(self.blobs@, i as int);
                }
                self.blobs.remove(i);
            }
            None => {
                proof {
                    lemma_blob_map_contains(self.blobs@, name@);
                    assert(!spec_blob_map(self.blobs@).contains_key(name@));
                    assert(spec_blob_map(self.blobs@).remove(name@) =~= spec_blob_map(
                        self.blobs@,
                    ));
                }
            }
        }
    }

    /// Append a chunk to a stored blob.
    pub fn append_blob(&mut self, name: &str, chunk: &Vec<u8>)
        requires
            old(self).wf(),
            old(self).blobs_view().contains_key(name@),
        ensures
            final(self).wf(),
            final(self).blobs_view() == old(self).blobs_view().insert(
                name@,
                old(self).blobs_view()[name@] + chunk@,
            ),
            final(self).records_view() == old(self).records_view(),
    {
        proof {
            lemma_blob_map_contains(self.blobs@, name@);
        }
        match find_index(&self.blobs, name) {
            Some(i) => {
                proof {
                    lemma_blob_map_index(self.blobs@, i as int);
                }
                let ghost old_data = self.blobs@[i as int].1@;
                let entry = self.blobs.remove(i);
                proof {
                    lemma_blob_map_remove(old(self).blobs@, i as int);
                }
                let mut data = entry.1;
                let mut j: usize = 0;
                while j < chunk.len()
                    invariant
                        j <= chunk@.len(),
                        data@ == old_data + chunk@.take(j as int),
                    decreases chunk@.len() - j,
                {
                    data.push(chunk[j]);
                    proof {
                        assert((old_data + chunk@.take(j as int)).push(chunk@[j as int]) =~= old_data
                            + chunk@.take(j as int + 1));
                    }
                    j = j + 1;
                }
                proof {
                    assert(chunk@.take(chunk@.len() as int) =~= chunk@);
                }
                let ghost before = self.blobs@;
                self.blobs.push((entry.0, data));
                proof {
                    assert(self.blobs@.drop_last() =~= before);
                    assert(self.blobs@.last().0@ == name@);
                    lemma_blob_map_contains(before, name@);
                    assert(spec_unique_blob_keys(self.blobs@)) by {
                        assert forall|a: int, b: int|
                            0 <= a < b < self.blobs@.len() implies self.blobs@[a].0@
                            != self.blobs@[b].0@ by {
                            if b == self.blobs@.len() - 1 {
                                if before[a].0@ == name@ {
                                    assert(spec_blob_map(before).contains_key(name@));
                                }
                            }
                        }
                    }
                    assert(old(self).blobs_view().insert(name@, old(self).blobs_view()[name@]
                        + chunk@) =~= spec_blob_map(self.blobs@));
                }
            }
            None => {
                proof {
                    assert(false);
                }
            }
        }
    }

    /// Move a blob from one name to another, replacing anything at the
    /// target; with no blob at the source this is a no-op.
    pub fn rename_blob(&mut self, from: &str, to: &str)
        requires
            old(self).wf(),
        ensures
            final(self).wf(),
            final(self).records_view() == old(self).records_view(),
            final(self).blobs_view() == if old(self).blobs_view().contains_key(from@) {
                old(self).blobs_view().remove(from@).insert(to@, old(self).blobs_view()[from@])
            } else {
                old(self).blobs_view()
            },
    {
        proof {
            lemma_blob_map_contains(self.blobs@, from@);
        }
        match find_index(&self.blobs, from) {
            Some(i) => {
                proof {
                    lemma_blob_map_index(self.blobs@, i as int);
                    lemma_blob_map_remove(self.blobs@, i as int);
                }
                let entry = self.blobs.remove(i);
                self.put_blob(to, entry.1);
            }
            None => {}
        }
    }

    /// The record stored beside this name.
    pub fn get_record(&self, name: &str) -> (r: Option<FileData>)
        requires
            self.wf(),
        ensures
            match r {
                Some(record) => self.records_view().contains_key(name@) && record
                    == self.records_view()[name@],
                None => !self.records_view().contains_key(name@),
            },
    {
        proof {
            lemma_record_map_contains(self.records@, name@);
        }
        match find_index(&self.records, name) {
            Some(i) => {
                proof {
                    lemma_record_map_index(self.records@, i as int);
                }
                Some(self.records[i].1)
            }
            None => None,
        }
    }

    /// Store a record beside this name, replacing any previous one.
    pub fn put_record(&mut self, name: &str, record: FileData)
        requires
            old(self).wf(),
        ensures
            final(self).wf(),
            final(self).records_view() == old(self).records_view().insert(name@, record),
            final(self).blobs_view() == old(self).blobs_view(),
    {
        self.delete_record(name);
        proof {
            lemma_record_map_contains(self.records@, name@);
            assert(!spec_record_map(self.records@).contains_key(name@));
        }
        let ghost before = self.records@;
        self.records.push((String::from_str(name), record));
        proof {
            assert(self.records@.drop_last() =~= before);
            assert(spec_unique_record_keys(self.records@)) by {
                assert forall|a: int, b: int|
                    0 <= a < b < self.records@.len() implies self.records@[a].0@
                    != self.records@[b].0@ by {
                    if b == self.records@.len() - 1 {
                        assert(before[a].0@ != name@);
                    }
                }
            }
            assert(old(self).records_view().insert(name@, record) =~= spec_record_map(
                self.records@,
            ));
        }
    }

    /// The model upload: stream the chunks into a temporary blob under a
    /// fresh name, and commit by a single rename; on any failure no trace
    /// remains. The records are never touched here — the caller stores any
    /// override record only after the upload committed.
    #[verifier::loop_isolation(false)]
    pub fn upload(
        &mut self,
        filename: &String,
        declared: Option<u64>,
        max_size: u64,
        temp_prefix: &String,
        chunks: &Vec<Vec<u8>>,
    ) -> (r: Result<String, UploadError>)
        requires
            old(self).wf(),
            !old(self).blobs_view().contains_key(
                temp_prefix@ + "_"@ + filename@ + ".partial"@,
            ),
        ensures
            final(self).wf(),
            final(self).records_view() == old(self).records_view(),
            match r {
                Ok(name) => {
                    &&& spec_upload_outcome(filename@, declared, max_size, chunks@) == Ok::<
                        Seq<char>,
                        ErrorView,
                    >(name@)
                    &&& final(self).blobs_view() == old(self).blobs_view().insert(
                        name@,
                        spec_concat_bytes(chunks@),
                    )
                },
                Err(e) => {
                    &&& spec_upload_outcome(filename@, declared, max_size, chunks@) == Err::<
                        Seq<char>,
                        ErrorView,
                    >(e@)
                    &&& final(self).blobs_view() == old(self).blobs_view()
                },
            },
    {
        let mut core = match IngestCore::begin(filename.clone(), declared, max_size) {
            Ok(core) => core,
            Err(e) => {
                return Err(e);
            }
        };
        let temp_name = temp_upload_name(temp_prefix.as_str(), filename.as_str());
        self.put_blob(temp_name.as_str(), Vec::new());
        proof {
            assert(self.blobs_view() =~= old(self).blobs_view().insert(
                temp_name@,
                spec_concat_bytes(chunks@.take(0)),
            ));
        }
        let mut i: usize = 0;
        while i < chunks.len()
            invariant
                i <= chunks@.len(),
                self.wf(),
                core.wf(),
                core.filename@ == filename@,
                core.declared == declared,
                core.max_size == max_size,
                core.got_data == (i > 0),
                hasher_fed(core.hasher) == spec_concat_bytes(chunks@.take(i as int)),
                self.records_view() == old(self).records_view(),
                self.blobs_view() == old(self).blobs_view().insert(
                    temp_name@,
                    spec_concat_bytes(chunks@.take(i as int)),
                ),
            decreases chunks@.len() - i,
        {
            let chunk = &chunks[i];
            match core.accept_chunk(chunk.as_slice()) {
                Ok(_) => {}
                Err(e) => {
                    proof {
                        lemma_concat_take_step(chunks@, i as int);
                        lemma_concat_take_len(chunks@, i as int + 1);
                        assert(spec_concat_bytes(chunks@).len() > max_size);
                    }
                    self.delete_blob(temp_name.as_str());
                    proof {
                        assert(self.blobs_view() =~= old(self).blobs_view());
                    }
                    return Err(e);
                }
            }
            self.append_blob(temp_name.as_str(), chunk);
            proof {
                lemma_concat_take_step(chunks@, i as int);
                assert(self.blobs_view() =~= old(self).blobs_view().insert(
                    temp_name@,
                    spec_concat_bytes(chunks@.take(i as int + 1)),
                ));
            }
            i = i + 1;
        }
        proof {
            assert(chunks@.take(chunks@.len() as int) =~= chunks@);
        }
        match core.finish() {
            Ok(name) => {
                self.rename_blob(temp_name.as_str(), name.as_str());
                proof {
                    assert(self.blobs_view() =~= old(self).blobs_view().insert(
                        name@,
                        spec_concat_bytes(chunks@),
                    ));
                }
                Ok(name)
            }
            Err(e) => {
                self.delete_blob(temp_name.as_str());
                proof {
                    assert(self.blobs_view() =~= old(self).blobs_view());
                }
                Err(e)
            }
        }
    }

    /// The model download: authorization already decided by the caller (and
    /// decided before the blob is looked at, so absence costs the same), the
    /// record and expiry consulted, expired files removed on the spot.
    pub fn download(&mut self, name: &String, auth_error: Option<UploadError>, now: u64) -> (r:
        Result<Vec<u8>, UploadError>)
        requires
            old(self).wf(),
        ensures
            final(self).wf(),
            ({
                let record = if old(self).records_view().contains_key(name@) {
                    old(self).records_view()[name@]
                } else {
                    FileData { download_permission: None, ttl: None }
                };
                let present = old(self).blobs_view().contains_key(name@);
                match spec_resolve(spec_auth_error_view(auth_error), record, present, now) {
                    Resolution::Allow => {
                        &&& (match r {
                            Ok(data) => data@ == old(self).blobs_view()[name@],
                            Err(_) => false,
                        })
                        &&& final(self).blobs_view() == old(self).blobs_view()
                        &&& final(self).records_view() == old(self).records_view()
                    },
                    Resolution::ExpireAndHide => {
                        &&& (match r {
                            Ok(_) => false,
                            Err(e) => e@ == ErrorView::FileNotExists,
                        })
                        &&& final(self).blobs_view() == old(self).blobs_view().remove(name@)
                        &&& final(self).records_view() == old(self).records_view().remove(name@)
                    },
                    Resolution::Deny(denial) => {
                        &&& (match r {
                            Ok(_) => false,
                            Err(e) => e@ == denial,
                        })
                        &&& final(self).blobs_view() == old(self).blobs_view()
                        &&& final(self).records_view() == old(self).records_view()
                    },
                }
            }),
    {
        let present = self.has_blob(name.as_str());
        let record = match self.get_record(name.as_str()) {
            Some(record) => record,
            None => FileData::default(),
        };
        match resolve_access(auth_error, &record, present, now) {
            AccessDecision::Allow => {
                match self.get_blob(name.as_str()) {
                    Some(data) => Ok(copy_bytes(data)),
                    None => {
                        proof {
                            assert(false);
                        }
                        Err(UploadError::FileNotExists)
                    }
                }
            }
            AccessDecision::ExpireAndHide => {
                self.delete_blob(name.as_str());
                self.delete_record(name.as_str());
                Err(UploadError::FileNotExists)
            }
            AccessDecision::Deny(e) => Err(e),
        }
    }

    /// One reaper sweep at time `now`: every record past its expiry is
    /// removed together with its blob; nothing else moves. The sweep cannot
    /// fail: each deletion is a no-op when a racing path got there first.
    #[verifier::loop_isolation(false)]
    pub fn reap(&mut self, now: u64)
        requires
            old(self).wf(),
        ensures
            final(self).wf(),
            forall|k: Seq<char>|
                #[trigger] final(self).records_view().contains_key(k) <==> (
                old(self).records_view().contains_key(k) && !spec_expired_at(
                    old(self).records_view()[k],
                    now,
                )),
            forall|k: Seq<char>|
                final(self).records_view().contains_key(k)
                    ==> #[trigger] final(self).records_view()[k] == old(self).records_view()[k],
            forall|k: Seq<char>|
                #[trigger] final(self).blobs_view().contains_key(k) <==> (
                old(self).blobs_view().contains_key(k) && !(old(self).records_view().contains_key(
                    k,
                ) && spec_expired_at(old(self).records_view()[k], now))),
            forall|k: Seq<char>|
                final(self).blobs_view().contains_key(k) ==> #[trigger] final(self).blobs_view()[k]
                    == old(self).blobs_view()[k],
    {
        // collect the names of the expired records
        let mut expired: Vec<String> = Vec::new();
        let mut i: usize = 0;
        while i < self.records.len()
            invariant
                i <= old(self).records@.len(),
                *self == *old(self),
                forall|m: int|
                    #![trigger expired@[m]]
                    0 <= m < expired@.len() ==> old(self).records_view().contains_key(expired@[m]@)
                        && spec_expired_at(old(self).records_view()[expired@[m]@], now),
                forall|j: int|
                    0 <= j < i && spec_expired_at(#[trigger] old(self).records@[j].1, now)
                        ==> spec_named_before(
                        expired@,
                        expired@.len() as int,
                        old(self).records@[j].0@,
                    ),
            decreases old(self).records@.len() - i,
        {
            let entry = &self.records[i];
            let ghost before = expired@;
            if entry.1.expired_at(now) {
                expired.push(entry.0.clone());
                proof {
                    assert(expired@[expired@.len() - 1]@ == old(self).records@[i as int].0@);
                    lemma_record_map_index(old(self).records@, i as int);
                    assert forall|j: int|
                        0 <= j < i + 1 && spec_expired_at(
                            #[trigger] old(self).records@[j].1,
                            now,
                        ) implies spec_named_before(
                        expired@,
                        expired@.len() as int,
                        old(self).records@[j].0@,
                    ) by {
                        if j < i {
                            let m = choose|m: int|
                                0 <= m < before.len() && #[trigger] before[m]@ == old(
                                    self,
                                ).records@[j].0@;
                            assert(expired@[m]@ == old(self).records@[j].0@);
                        } else {
                            assert(expired@[expired@.len() - 1]@ == old(self).records@[j].0@);
                        }
                    }
                }
            }
            i = i + 1;
        }
        // delete each expired record together with its blob
        let mut t: usize = 0;
        while t < expired.len()
            invariant
                t <= expired@.len(),
                self.wf(),
                forall|k: Seq<char>|
                    #[trigger] self.records_view().contains_key(k) <==> (
                    old(self).records_view().contains_key(k) && !spec_named_before(
                        expired@,
                        t as int,
                        k,
                    )),
                forall|k: Seq<char>|
                    self.records_view().contains_key(k) ==> #[trigger] self.records_view()[k]
                        == old(self).records_view()[k],
                forall|k: Seq<char>|
                    #[trigger] self.blobs_view().contains_key(k) <==> (
                    old(self).blobs_view().contains_key(k) && !spec_named_before(
                        expired@,
                        t as int,
                        k,
                    )),
                forall|k: Seq<char>|
                    self.blobs_view().contains_key(k) ==> #[trigger] self.blobs_view()[k] == old(
                        self,
                    ).blobs_view()[k],
            decreases expired@.len() - t,
        {
            let name = &expired[t];
            self.delete_record(name.as_str());
            self.delete_blob(name.as_str());
            proof {
                assert forall|k: Seq<char>|
                    #[trigger] spec_named_before(expired@, t as int + 1, k) <==> (
                    spec_named_before(expired@, t as int, k) || k == expired@[t as int]@) by {
                    if spec_named_before(expired@, t as int + 1, k) {
                        let m = choose|m: int| 0 <= m < t + 1 && #[trigger] expired@[m]@ == k;
                        if m < t {
                            assert(spec_named_before(expired@, t as int, k));
                        }
                    }
                    if spec_named_before(expired@, t as int, k) {
                        let m = choose|m: int| 0 <= m < t && #[trigger] expired@[m]@ == k;
                        assert(0 <= m < t + 1 && expired@[m]@ == k);
                    }
                    if k == expired@[t as int]@ {
                        assert(0 <= t < t + 1 && expired@[t as int]@ == k);
                    }
                }
            }
            t = t + 1;
        }
        proof {
            // the collected names are exactly the keys of the expired records
            assert forall|k: Seq<char>|
                #[trigger] spec_named_before(expired@, expired@.len() as int, k) <==> (
                old(self).records_view().contains_key(k) && spec_expired_at(
                    old(self).records_view()[k],
                    now,
                )) by {
                lemma_record_map_contains(old(self).records@, k);
                if spec_named_before(expired@, expired@.len() as int, k) {
                    let m = choose|m: int| 0 <= m < expired@.len() && #[trigger] expired@[m]@ == k;
                    assert(old(self).records_view().contains_key(expired@[m]@));
                }
                if old(self).records_view().contains_key(k) && spec_expired_at(
                    old(self).records_view()[k],
                    now,
                ) {
                    let j = choose|j: int|
                        0 <= j < old(self).records@.len() && old(self).records@[j].0@ == k;
                    lemma_record_map_index(old(self).records@, j);
                    assert(spec_expired_at(old(self).records@[j].1, now));
                }
            }
        }
    }

    /// Delete the record of this name; deleting an absent one is a no-op.
    pub fn delete_record(&mut self, name: &str)
        requires
            old(self).wf(),
        ensures
            final(self).wf(),
            final(self).records_view() == old(self).records_view().remove(name@),
            final(self).blobs_view() == old(self).blobs_view(),
    {
        match find_index(&self.records, name) {
            Some(i) => {
                proof {
                    lemma_record_map_remove(self.records@, i as int);
                }
                self.records.remove(i);
            }
            None => {
                proof {
                    lemma_record_map_contains(self.records@, name@);
                    assert(!spec_record_map(self.records@).contains_key(name@));
                    assert(spec_record_map(self.records@).remove(name@) =~= spec_record_map(
                        self.records@,
                    ));
                }
            }
        }
    }
}


/// Round trip: a successful upload stores exactly the uploaded bytes under
/// the returned name — the first 8 hex characters of the content's
/// fingerprint, an underscore, and the filename — and an authorized download
/// of that name, with no overriding record and no expiry, yields exactly
/// those bytes again.
pub proof fn lemma_upload_download_round_trip(
    blobs: Map<Seq<char>, Seq<u8>>,
    filename: Seq<char>,
    declared: Option<u64>,
    max_size: u64,
    chunks: Seq<Vec<u8>>,
    name: Seq<char>,
    now: u64,
)
    requires
        spec_upload_outcome(filename, declared, max_size, chunks) == Ok::<Seq<char>, ErrorView>(
            name,
        ),
    ensures
        name == blake3_hex_of(spec_concat_bytes(chunks)).take(8) + "_"@ + filename,
        blobs.insert(name, spec_concat_bytes(chunks)).contains_key(name),
        blobs.insert(name, spec_concat_bytes(chunks))[name] == spec_concat_bytes(chunks),
        spec_resolve(None, FileData { download_permission: None, ttl: None }, true, now)
            == Resolution::Allow,
{
}

/// Deleting a file twice — as when the reaper and the on-demand expiry path
/// race on the same expired file — leaves the very same store as deleting it
/// once; and a deletion cannot fail, since `delete_blob` and `delete_record`
/// are total, with no error to return.
pub proof fn lemma_delete_twice_is_once(
    blobs: Map<Seq<char>, Seq<u8>>,
    records: Map<Seq<char>, FileData>,
    name: Seq<char>,
)
    ensures
        blobs.remove(name).remove(name) == blobs.remove(name),
        records.remove(name).remove(name) == records.remove(name),
{
    assert(blobs.remove(name).remove(name) =~= blobs.remove(name));
    assert(records.remove(name).remove(name) =~= records.remove(name));
}

} // verus!
