//! The protocol for posting one group: its text first, then the overflow
//! messages, then the image chunks in order. The host performs each action
//! and reports how it went; this state machine decides what comes next.
//! On a forum channel the first call opens a thread and every later call of
//! the group is sent into that thread.
use vstd::prelude::*;
use crate::composer::{create_discord_payload, opt_text, payload_fields, payload_overflow, texts, TextFields};
use crate::discord::{extract_thread_id, thread_id_of};
use crate::driver::{chunk_by_count, chunk_views, count_chunks, effective_max_images, flatten, spec_effective_max};
use crate::grouper::ImageGroup;
use crate::json::opt_view;

verus! {

/// Where the posting of a group stands.
#[derive(Debug, Clone, Copy, PartialEq, Eq, Structural)]
pub enum GroupStage {
    /// The main text is to be sent.
    MainText,
    /// Overflow message `i` is to be sent.
    Overflow(usize),
    /// Image chunk `i` is to be uploaded.
    Chunk(usize),
    /// Every chunk was uploaded.
    Finished,
    /// The group failed; the images of chunk `k` on were not uploaded.
    Failed(usize),
}

/// The next call to make for a group.
#[derive(Debug, Clone)]
pub enum GroupAction {
    /// A text-only message.
    SendText { content: String, thread_name: Option<String>, thread_id: Option<String> },
    /// The images of one chunk, with no text.
    UploadChunk { index: usize, thread_id: Option<String> },
    /// Nothing left to do: the group succeeded.
    Done,
    /// Nothing left to do: the images from this chunk on failed.
    Fail { from_chunk: usize },
}

/// The state of posting one group.
pub struct GroupUpload {
    pub is_forum: bool,
    pub chunks: Vec<Vec<String>>,
    pub fields: TextFields,
    pub overflow: Vec<String>,
    pub stage: GroupStage,
    pub thread_id: Option<String>,
    /// The thread id that each call made so far carried, in order.
    pub calls: Ghost<Seq<Option<Seq<char>>>>,
}

impl GroupUpload {
    /// The stage that follows the overflow messages from index `i` on.
    pub open spec fn after_overflow(&self, i: int) -> GroupStage {
        if i < self.overflow@.len() {
            GroupStage::Overflow(i as usize)
        } else if self.chunks@.len() > 0 {
            GroupStage::Chunk(0)
        } else {
            GroupStage::Finished
        }
    }

    /// The stage that follows the chunks from index `i` on.
    pub open spec fn after_chunk(&self, i: int) -> GroupStage {
        if i < self.chunks@.len() {
            GroupStage::Chunk(i as usize)
        } else {
            GroupStage::Finished
        }
    }

    /// The thread id that a call made in the current stage carries.
    pub open spec fn carried(&self) -> Option<Seq<char>> {
        if self.stage == GroupStage::MainText {
            None
        } else {
            opt_view(self.thread_id)
        }
    }

    pub open spec fn wf(&self) -> bool {
        &&& self.fields.content.is_some()
        &&& match self.stage {
            GroupStage::MainText => self.calls@.len() == 0 && self.thread_id.is_none(),
            GroupStage::Overflow(i) => i < self.overflow@.len() && self.calls@.len() >= 1,
            GroupStage::Chunk(i) => i < self.chunks@.len() && self.calls@.len() >= 1,
            GroupStage::Finished => self.calls@.len() >= 1,
            GroupStage::Failed(k) => k <= self.chunks@.len() && self.calls@.len() >= 1,
        }
        &&& self.is_forum && self.stage != GroupStage::MainText && !(self.stage matches GroupStage::Failed(_))
            ==> self.thread_id.is_some()
        &&& self.is_forum && self.calls@.len() >= 2 ==> self.thread_id.is_some()
        &&& self.is_forum ==> forall|i: int| 1 <= i < self.calls@.len() ==> #[trigger] self.calls@[i] == opt_view(self.thread_id)
    }

    /// Prepares the posting of a group: images in chunks of the effective
    /// size, and the text of the group's first message.
    pub fn new(group: &ImageGroup, max_images: u8, is_forum: bool, is_first_group: bool, include_player_names: bool) -> (r: Self)
        requires
            max_images > 0,
        ensures
            r.wf(),
            r.stage == GroupStage::MainText,
            r.is_forum == is_forum,
            chunk_views(r.chunks@) == count_chunks(texts(group.images@), spec_effective_max(is_forum, max_images) as nat),
            (opt_text(r.fields.content), opt_text(r.fields.thread_name)) == payload_fields(
                group.all_worlds@,
                group.all_players@,
                group.timestamp,
                true,
                is_forum && is_first_group,
                include_player_names,
            ),
            texts(r.overflow@) == payload_overflow(
                group.all_worlds@,
                group.all_players@,
                group.timestamp,
                true,
                include_player_names,
            ),
    {
        let size = effective_max_images(is_forum, max_images);
        let chunks = chunk_by_count(&group.images, size as usize);
        let (fields, overflow) = create_discord_payload(
            group.all_worlds.as_slice(),
            group.all_players.as_slice(),
            group.timestamp,
            true,
            0,
            is_forum && is_first_group,
            None,
            include_player_names,
        );
        GroupUpload {
            is_forum,
            chunks,
            fields,
            overflow,
            stage: GroupStage::MainText,
            thread_id: None,
            calls: Ghost(Seq::empty()),
        }
    }

    /// The call to make now.
    pub fn next_action(&self) -> (r: GroupAction)
        requires
            self.wf(),
        ensures
            match self.stage {
                GroupStage::MainText => r matches GroupAction::SendText { content, thread_name, thread_id }
                    && Some(content@) == opt_text(self.fields.content)
                    && opt_view(thread_name) == opt_text(self.fields.thread_name)
                    && thread_id.is_none(),
                GroupStage::Overflow(i) => r matches GroupAction::SendText { content, thread_name, thread_id }
                    && content@ == self.overflow@[i as int]@ && thread_name.is_none()
                    && opt_view(thread_id) == opt_view(self.thread_id),
                GroupStage::Chunk(i) => r matches GroupAction::UploadChunk { index, thread_id }
                    && index == i && opt_view(thread_id) == opt_view(self.thread_id),
                GroupStage::Finished => r matches GroupAction::Done,
                GroupStage::Failed(k) => r matches GroupAction::Fail { from_chunk } && from_chunk == k,
            },
            r matches GroupAction::SendText { thread_id, .. } ==> opt_view(thread_id) == self.carried(),
            r matches GroupAction::UploadChunk { thread_id, .. } ==> opt_view(thread_id) == self.carried(),
    {
        match self.stage {
            GroupStage::MainText => {
                let content = match &self.fields.content {
                    Some(c) => c.clone(),
                    None => String::new(),
                };
                GroupAction::SendText { content, thread_name: self.fields.thread_name.clone(), thread_id: None }
            },
            GroupStage::Overflow(i) => GroupAction::SendText {
                content: self.overflow[i].clone(),
                thread_name: None,
                thread_id: self.thread_id.clone(),
            },
            GroupStage::Chunk(i) => GroupAction::UploadChunk { index: i, thread_id: self.thread_id.clone() },
            GroupStage::Finished => GroupAction::Done,
            GroupStage::Failed(k) => GroupAction::Fail { from_chunk: k },
        }
    }

    /// Whether a call is under way, that is the group has not ended.
    pub open spec fn in_progress(&self) -> bool {
        !(self.stage == GroupStage::Finished || self.stage matches GroupStage::Failed(_))
    }

    /// The call of the current stage succeeded with this response body. On a
    /// forum channel the response to the main text names the thread; a
    /// response that names none fails the group.
    pub fn on_success(&mut self, response_body: &str)
        requires
            old(self).wf(),
        ensures
            final(self).wf(),
            final(self).is_forum == old(self).is_forum,
            final(self).chunks == old(self).chunks,
            final(self).overflow == old(self).overflow,
            old(self).in_progress() ==> final(self).calls@ == old(self).calls@.push(old(self).carried()),
            !old(self).in_progress() ==> final(self).stage == old(self).stage && final(self).calls@ == old(self).calls@,
            match old(self).stage {
                GroupStage::MainText => if old(self).is_forum {
                    match thread_id_of(response_body@) {
                        Some(t) => opt_view(final(self).thread_id) == Some(t) && final(self).stage == old(self).after_overflow(0),
                        None => final(self).stage == GroupStage::Failed(0),
                    }
                } else {
                    final(self).stage == old(self).after_overflow(0) && final(self).thread_id.is_none()
                },
                GroupStage::Overflow(i) => final(self).stage == old(self).after_overflow(i + 1)
                    && final(self).thread_id == old(self).thread_id,
                GroupStage::Chunk(i) => final(self).stage == old(self).after_chunk(i + 1)
                    && final(self).thread_id == old(self).thread_id,
                _ => final(self).thread_id == old(self).thread_id,
            },
    {
        let ghost carried = self.carried();
        match self.stage {
            GroupStage::MainText => {
                self.calls = Ghost(self.calls@.push(carried));
                if self.is_forum {
                    match extract_thread_id(response_body) {
                        Some(t) => {
                            self.thread_id = Some(t);
                            self.stage = self.next_after_overflow(0);
                        },
                        None => {
                            self.stage = GroupStage::Failed(0);
                        },
                    }
                } else {
                    self.stage = self.next_after_overflow(0);
                }
            },
            GroupStage::Overflow(i) => {
                assert(i < self.overflow.len());
                self.calls = Ghost(self.calls@.push(carried));
                self.stage = self.next_after_overflow(i + 1);
            },
            GroupStage::Chunk(i) => {
                assert(i < self.chunks.len());
                self.calls = Ghost(self.calls@.push(carried));
                self.stage = self.next_after_chunk(i + 1);
            },
            _ => {},
        }
    }

    /// The call of the current stage failed for good. A failed main text
    /// fails a forum group, which has no thread; elsewhere the images are
    /// still sent. A failed overflow message is passed over. A failed chunk
    /// fails the group from that chunk on.
    pub fn on_failure(&mut self)
        requires
            old(self).wf(),
        ensures
            final(self).wf(),
            final(self).is_forum == old(self).is_forum,
            final(self).chunks == old(self).chunks,
            final(self).overflow == old(self).overflow,
            final(self).thread_id == old(self).thread_id,
            old(self).in_progress() ==> final(self).calls@ == old(self).calls@.push(old(self).carried()),
            !old(self).in_progress() ==> final(self).stage == old(self).stage && final(self).calls@ == old(self).calls@,
            match old(self).stage {
                GroupStage::MainText => if old(self).is_forum {
                    final(self).stage == GroupStage::Failed(0)
                } else {
                    final(self).stage == old(self).after_chunk(0)
                },
                GroupStage::Overflow(i) => final(self).stage == old(self).after_overflow(i + 1),
                GroupStage::Chunk(i) => final(self).stage == GroupStage::Failed(i),
                _ => true,
            },
    {
        let ghost carried = self.carried();
        match self.stage {
            GroupStage::MainText => {
                self.calls = Ghost(self.calls@.push(carried));
                if self.is_forum {
                    self.stage = GroupStage::Failed(0);
                } else {
                    self.stage = self.next_after_chunk(0);
                }
            },
            GroupStage::Overflow(i) => {
                assert(i < self.overflow.len());
                self.calls = Ghost(self.calls@.push(carried));
                self.stage = self.next_after_overflow(i + 1);
            },
            GroupStage::Chunk(i) => {
                self.calls = Ghost(self.calls@.push(carried));
                self.stage = GroupStage::Failed(i);
            },
            _ => {},
        }
    }

    fn next_after_overflow(&self, i: usize) -> (r: GroupStage)
        ensures
            r == self.after_overflow(i as int),
    {
        if i < self.overflow.len() {
            GroupStage::Overflow(i)
        } else if self.chunks.len() > 0 {
            GroupStage::Chunk(0)
        } else {
            GroupStage::Finished
        }
    }

    fn next_after_chunk(&self, i: usize) -> (r: GroupStage)
        ensures
            r == self.after_chunk(i as int),
    {
        if i < self.chunks.len() {
            GroupStage::Chunk(i)
        } else {
            GroupStage::Finished
        }
    }

    /// The images that a failed group did not upload, in order.
    pub fn failed_images(&self) -> (r: Vec<String>)
        requires
            self.wf(),
        ensures
            match self.stage {
                GroupStage::Failed(k) => texts(r@) == flatten(chunk_views(self.chunks@).skip(k as int)),
                _ => r@.len() == 0,
            },
    {
        let mut out: Vec<String> = Vec::new();
        if let GroupStage::Failed(k) = self.stage {
            let ghost cv = chunk_views(self.chunks@);
            let mut c: usize = k;
            assert(texts(out@) =~= flatten(cv.subrange(k as int, k as int))) by {
                assert(cv.subrange(k as int, k as int) =~= Seq::<Seq<Seq<char>>>::empty());
            }
            while c < self.chunks.len()
                invariant
                    k <= c <= self.chunks@.len(),
                    cv == chunk_views(self.chunks@),
                    texts(out@) == flatten(cv.subrange(k as int, c as int)),
                decreases self.chunks@.len() - c,
            {
                let chunk = &self.chunks[c];
                let ghost start = out@;
                let mut j: usize = 0;
                while j < chunk.len()
                    invariant
                        j <= chunk@.len(),
                        texts(out@) == texts(start) + texts(chunk@).take(j as int),
                    decreases chunk@.len() - j,
                {
                    let ghost before = out@;
                    out.push(chunk[j].clone());
                    assert(texts(out@) =~= texts(before).push(chunk@[j as int]@));
                    assert(texts(chunk@).take(j + 1) =~= texts(chunk@).take(j as int).push(chunk@[j as int]@));
                    assert(texts(out@) =~= texts(start) + texts(chunk@).take(j + 1));
                    j += 1;
                }
                proof {
                    assert(texts(chunk@).take(chunk@.len() as int) =~= texts(chunk@));
                    assert(cv.subrange(k as int, c + 1).drop_last() =~= cv.subrange(k as int, c as int));
                    assert(cv.subrange(k as int, c + 1).last() == cv[c as int]);
                }
                c += 1;
            }
            assert(cv.subrange(k as int, cv.len() as int) =~= cv.skip(k as int));
        }
        out
    }
}

/// On a forum channel every call of a group after the first carries one and
/// the same thread id: the one the first call's response named.
pub proof fn lemma_forum_calls_share_thread(g: GroupUpload)
    requires
        g.wf(),
        g.is_forum,
        g.calls@.len() >= 2,
    ensures
        g.thread_id.is_some(),
        forall|i: int| 1 <= i < g.calls@.len() ==> #[trigger] g.calls@[i] == Some(g.thread_id.unwrap()@),
{
    assert forall|i: int| 1 <= i < g.calls@.len() implies #[trigger] g.calls@[i] == Some(g.thread_id.unwrap()@) by {
        assert(g.calls@[i] == opt_view(g.thread_id));
    }
}

} // verus!
