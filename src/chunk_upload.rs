//! Sending one chunk of images, with the fallback for a payload that Discord
//! refuses as too large: re-encode the images, send again, and if still too
//! large send them in size-bounded sub-chunks. Every call of a chunk goes to
//! the thread the chunk was given.
use vstd::prelude::*;
use crate::composer::texts;
use crate::driver::{chunk_views, flatten, pack_sizes, split_into_size_chunks, total_exceeds, total_size, SAFE_CHUNK_SIZE_BYTES};
use crate::json::opt_view;
use crate::png::{find_subsequence, has_bytes};

verus! {

/// The bytes of "Payload Too Large".
pub open spec fn too_large_text() -> Seq<u8> {
    seq![80u8, 97, 121, 108, 111, 97, 100, 32, 84, 111, 111, 32, 76, 97, 114, 103, 101]
}

/// Whether a refused request was refused for its size: status 413, or a body
/// that says "Payload Too Large".
pub fn is_payload_too_large(status: u16, body: &str) -> (r: bool)
    ensures
        r == (status == 413 || has_bytes(vstd::utf8::encode_utf8(body@), too_large_text())),
{
    let pattern: [u8; 17] = [80, 97, 121, 108, 111, 97, 100, 32, 84, 111, 111, 32, 76, 97, 114, 103, 101];
    assert(pattern@ =~= too_large_text());
    status == 413 || find_subsequence(body.as_bytes(), &pattern).is_some()
}

/// Where the sending of a chunk stands.
#[derive(Debug, Clone, Copy, PartialEq, Eq, Structural)]
pub enum ChunkStage {
    /// The images as they are are to be sent.
    Original,
    /// The images are to be re-encoded.
    Compressing,
    /// The re-encoded images are to be sent.
    Compressed,
    /// Sub-chunk `i` of the re-encoded images is to be sent.
    Split(usize),
    /// The chunk was delivered.
    Succeeded,
    /// The chunk could not be delivered.
    Failed,
}

/// The next step for a chunk.
#[derive(Debug, Clone)]
pub enum ChunkAction {
    /// Post these files, into this thread if any.
    Send { files: Vec<String>, thread_id: Option<String> },
    /// Re-encode these files; report the new paths and sizes, keeping a
    /// file's original path where it could not be re-encoded.
    Compress { files: Vec<String> },
    /// Delivered.
    Done,
    /// Not delivered.
    Fail,
}

/// The state of sending one chunk.
pub struct ChunkUpload {
    pub files: Vec<String>,
    pub thread_id: Option<String>,
    pub stage: ChunkStage,
    pub compressed: Vec<String>,
    pub sizes: Vec<u64>,
    pub sub_chunks: Vec<Vec<String>>,
}

fn copy_texts(v: &Vec<String>) -> (r: Vec<String>)
    ensures
        r@ == v@,
{
    let mut out: Vec<String> = Vec::new();
    let mut i: usize = 0;
    while i < v.len()
        invariant
            i <= v@.len(),
            out@ == v@.take(i as int),
        decreases v@.len() - i,
    {
        out.push(v[i].clone());
        assert(out@ =~= v@.take(i + 1));
        i += 1;
    }
    assert(v@.take(v@.len() as int) =~= v@);
    out
}

/// The re-encoded files that are not original files, which are to be deleted.
pub open spec fn temp_paths(compressed: Seq<Seq<char>>, originals: Seq<Seq<char>>) -> Seq<Seq<char>>
    decreases compressed.len(),
{
    if compressed.len() == 0 {
        Seq::empty()
    } else {
        let r = temp_paths(compressed.drop_last(), originals);
        if originals.contains(compressed.last()) { r } else { r.push(compressed.last()) }
    }
}

impl ChunkUpload {
    pub open spec fn wf(&self) -> bool {
        &&& self.compressed@.len() == self.sizes@.len()
        &&& (self.stage matches ChunkStage::Split(i) ==> i < self.sub_chunks@.len())
        &&& (self.stage matches ChunkStage::Split(_) ==> flatten(chunk_views(self.sub_chunks@)) == texts(self.compressed@))
    }

    /// A chunk to send into `thread_id`, if given.
    pub fn new(files: Vec<String>, thread_id: Option<String>) -> (r: Self)
        ensures
            r.wf(),
            r.stage == ChunkStage::Original,
            r.files@ == files@,
            opt_view(r.thread_id) == opt_view(thread_id),
    {
        ChunkUpload { files, thread_id, stage: ChunkStage::Original, compressed: Vec::new(), sizes: Vec::new(), sub_chunks: Vec::new() }
    }

    /// The step to take now. Every send goes to the chunk's thread.
    pub fn next_action(&self) -> (r: ChunkAction)
        requires
            self.wf(),
        ensures
            r matches ChunkAction::Send { thread_id, .. } ==> opt_view(thread_id) == opt_view(self.thread_id),
            match self.stage {
                ChunkStage::Original => r matches ChunkAction::Send { files, .. } && files@ == self.files@,
                ChunkStage::Compressing => r matches ChunkAction::Compress { files } && files@ == self.files@,
                ChunkStage::Compressed => r matches ChunkAction::Send { files, .. } && files@ == self.compressed@,
                ChunkStage::Split(i) => r matches ChunkAction::Send { files, .. } && files@ == self.sub_chunks@[i as int]@,
                ChunkStage::Succeeded => r matches ChunkAction::Done,
                ChunkStage::Failed => r matches ChunkAction::Fail,
            },
    {
        match self.stage {
            ChunkStage::Original => ChunkAction::Send { files: copy_texts(&self.files), thread_id: self.thread_id.clone() },
            ChunkStage::Compressing => ChunkAction::Compress { files: copy_texts(&self.files) },
            ChunkStage::Compressed => ChunkAction::Send { files: copy_texts(&self.compressed), thread_id: self.thread_id.clone() },
            ChunkStage::Split(i) => ChunkAction::Send { files: copy_texts(&self.sub_chunks[i]), thread_id: self.thread_id.clone() },
            ChunkStage::Succeeded => ChunkAction::Done,
            ChunkStage::Failed => ChunkAction::Fail,
        }
    }

    /// A send finished: delivered (`ok`), or refused, for its size or not.
    /// A refusal of the original images for their size leads to re-encoding;
    /// any other refusal fails the chunk.
    pub fn on_sent(&mut self, ok: bool, too_large: bool)
        requires
            old(self).wf(),
        ensures
            final(self).wf(),
            final(self).files == old(self).files,
            final(self).thread_id == old(self).thread_id,
            final(self).compressed == old(self).compressed,
            match old(self).stage {
                ChunkStage::Original => final(self).stage == if ok {
                    ChunkStage::Succeeded
                } else if too_large {
                    ChunkStage::Compressing
                } else {
                    ChunkStage::Failed
                },
                ChunkStage::Compressed => final(self).stage == if ok { ChunkStage::Succeeded } else { ChunkStage::Failed },
                ChunkStage::Split(i) => final(self).sub_chunks == old(self).sub_chunks && final(self).stage == if !ok {
                    ChunkStage::Failed
                } else if i + 1 < old(self).sub_chunks@.len() {
                    ChunkStage::Split((i + 1) as usize)
                } else {
                    ChunkStage::Succeeded
                },
                _ => final(self).stage == old(self).stage,
            },
    {
        match self.stage {
            ChunkStage::Original => {
                self.stage = if ok {
                    ChunkStage::Succeeded
                } else if too_large {
                    ChunkStage::Compressing
                } else {
                    ChunkStage::Failed
                };
            },
            ChunkStage::Compressed => {
                self.stage = if ok { ChunkStage::Succeeded } else { ChunkStage::Failed };
            },
            ChunkStage::Split(i) => {
                assert(i < self.sub_chunks.len());
                self.stage = if !ok {
                    ChunkStage::Failed
                } else if i + 1 < self.sub_chunks.len() {
                    ChunkStage::Split(i + 1)
                } else {
                    ChunkStage::Succeeded
                };
            },
            _ => {},
        }
    }

    /// The re-encoded files, one per original file and with their sizes.
    /// When they add up to more than 7 MiB they are sent in size-bounded
    /// sub-chunks, in order; otherwise together.
    pub fn on_compressed(&mut self, paths: Vec<String>, sizes: Vec<u64>)
        requires
            old(self).wf(),
            old(self).stage == ChunkStage::Compressing,
            paths@.len() == sizes@.len(),
        ensures
            final(self).wf(),
            final(self).compressed@ == paths@,
            final(self).sizes@ == sizes@,
            final(self).files == old(self).files,
            final(self).thread_id == old(self).thread_id,
            total_size(sizes@) > SAFE_CHUNK_SIZE_BYTES ==> {
                &&& chunk_views(final(self).sub_chunks@) == pack_sizes(Seq::empty(), Seq::empty(), 0, texts(paths@), sizes@, 0)
                &&& flatten(chunk_views(final(self).sub_chunks@)) == texts(paths@)
                &&& final(self).stage == if final(self).sub_chunks@.len() > 0 { ChunkStage::Split(0) } else { ChunkStage::Failed }
            },
            total_size(sizes@) <= SAFE_CHUNK_SIZE_BYTES ==> final(self).stage == ChunkStage::Compressed,
    {
        let split = total_exceeds(sizes.as_slice(), SAFE_CHUNK_SIZE_BYTES);
        self.compressed = paths;
        self.sizes = sizes;
        if split {
            self.sub_chunks = split_into_size_chunks(self.compressed.as_slice(), self.sizes.as_slice());
            self.stage = if self.sub_chunks.len() > 0 { ChunkStage::Split(0) } else { ChunkStage::Failed };
        } else {
            self.sub_chunks = Vec::new();
            self.stage = ChunkStage::Compressed;
        }
    }

    /// The re-encoded files to delete once the chunk has ended.
    pub fn temp_files(&self) -> (r: Vec<String>)
        ensures
            texts(r@) == temp_paths(texts(self.compressed@), texts(self.files@)),
    {
        let ghost cs = texts(self.compressed@);
        let ghost fs = texts(self.files@);
        let mut out: Vec<String> = Vec::new();
        let mut i: usize = 0;
        assert(cs.take(0) =~= Seq::<Seq<char>>::empty());
        assert(texts(out@) =~= Seq::<Seq<char>>::empty());
        while i < self.compressed.len()
            invariant
                i <= self.compressed@.len(),
                cs == texts(self.compressed@),
                fs == texts(self.files@),
                texts(out@) == temp_paths(cs.take(i as int), fs),
            decreases self.compressed@.len() - i,
        {
            let c = &self.compressed[i];
            let mut found = false;
            let mut j: usize = 0;
            while j < self.files.len()
                invariant
                    j <= self.files@.len(),
                    fs == texts(self.files@),
                    found == exists|t: int| 0 <= t < j && #[trigger] fs[t] == c@,
                decreases self.files@.len() - j,
            {
                assert(fs[j as int] == self.files@[j as int]@);
                if self.files[j] == *c {
                    found = true;
                }
                proof {
                    if found {
                        if fs[j as int] == c@ {
                            assert(exists|t: int| 0 <= t < j + 1 && #[trigger] fs[t] == c@);
                        }
                    } else {
                        assert(!(exists|t: int| 0 <= t < j + 1 && #[trigger] fs[t] == c@)) by {
                            if exists|t: int| 0 <= t < j + 1 && #[trigger] fs[t] == c@ {
                                let t = choose|t: int| 0 <= t < j + 1 && #[trigger] fs[t] == c@;
                                if t < j {
                                } else {
                                    assert(fs[j as int] != c@);
                                }
                            }
                        }
                    }
                }
                j += 1;
            }
            proof {
                assert(cs.take(i + 1).drop_last() =~= cs.take(i as int));
                assert(cs.take(i + 1).last() == c@);
                assert(found == fs.contains(c@));
            }
            if !found {
                let ghost before = out@;
                out.push(c.clone());
                assert(texts(out@) =~= texts(before).push(c@));
            }
            i += 1;
        }
        assert(cs.take(cs.len() as int) =~= cs);
        out
    }
}

} // verus!
