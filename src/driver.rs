//! Decisions of the upload driver: how a group is cut into chunks, how an
//! oversize chunk is split, when a request is retried and after how long.
use vstd::prelude::*;
use crate::composer::texts;
use crate::text::owned;

verus! {

/// Discord's limit on attachments per message, and the forum cap.
pub const MAX_ATTACHMENTS: u8 = 10;

/// Target size of a re-sent sub-chunk: 7 MiB.
pub const SAFE_CHUNK_SIZE_BYTES: u64 = 7340032;

/// The chunk size for a group: the user's choice, at most 10 on a forum.
pub open spec fn spec_effective_max(is_forum: bool, user_max: u8) -> u8 {
    if is_forum && user_max > MAX_ATTACHMENTS { MAX_ATTACHMENTS } else { user_max }
}

pub fn effective_max_images(is_forum: bool, user_max: u8) -> (r: u8)
    ensures
        r == spec_effective_max(is_forum, user_max),
        is_forum ==> r <= MAX_ATTACHMENTS,
{
    if is_forum && user_max > MAX_ATTACHMENTS {
        MAX_ATTACHMENTS
    } else {
        user_max
    }
}

/// The views of a list of chunks.
pub open spec fn chunk_views(v: Seq<Vec<String>>) -> Seq<Seq<Seq<char>>> {
    v.map_values(|c: Vec<String>| texts(c@))
}

/// Consecutive chunks of `n` items; the last may be shorter.
pub open spec fn count_chunks(s: Seq<Seq<char>>, n: nat) -> Seq<Seq<Seq<char>>>
    decreases s.len(),
{
    if s.len() == 0 || n == 0 {
        Seq::empty()
    } else if s.len() <= n {
        seq![s]
    } else {
        seq![s.take(n as int)] + count_chunks(s.skip(n as int), n)
    }
}

/// Cuts a group's images into chunks of `size`, keeping their order.
pub fn chunk_by_count(images: &Vec<String>, size: usize) -> (r: Vec<Vec<String>>)
    requires
        size > 0,
    ensures
        chunk_views(r@) == count_chunks(texts(images@), size as nat),
{
    let ghost s = texts(images@);
    let mut out: Vec<Vec<String>> = Vec::new();
    let mut i: usize = 0;
    assert(s.skip(0) =~= s);
    assert(chunk_views(out@) =~= Seq::<Seq<Seq<char>>>::empty());
    while i < images.len()
        invariant
            i <= images@.len(),
            s == texts(images@),
            size > 0,
            chunk_views(out@) + count_chunks(s.skip(i as int), size as nat) == count_chunks(s, size as nat),
        decreases images@.len() - i,
    {
        let end = if images.len() - i <= size { images.len() } else { i + size };
        let mut chunk: Vec<String> = Vec::new();
        let mut j: usize = i;
        while j < end
            invariant
                i <= j <= end <= images@.len(),
                texts(chunk@) == s.subrange(i as int, j as int),
                s == texts(images@),
            decreases end - j,
        {
            let item = images[j].clone();
            assert(s[j as int] == item@);
            let ghost before = chunk@;
            chunk.push(item);
            assert(texts(chunk@) =~= texts(before).push(item@));
            assert(texts(chunk@) =~= s.subrange(i as int, j + 1));
            j += 1;
        }
        proof {
            let rest = s.skip(i as int);
            if images@.len() - i <= size {
                assert(rest =~= s.subrange(i as int, end as int));
                assert(s.skip(end as int) =~= Seq::<Seq<char>>::empty());
            } else {
                assert(rest.take(size as int) =~= s.subrange(i as int, end as int));
                assert(rest.skip(size as int) =~= s.skip(end as int));
            }
        }
        let ghost before = out@;
        out.push(chunk);
        proof {
            assert(chunk_views(out@) =~= chunk_views(before).push(s.subrange(i as int, end as int)));
            assert(chunk_views(out@) + count_chunks(s.skip(end as int), size as nat) =~= chunk_views(before) + count_chunks(s.skip(i as int), size as nat));
        }
        i = end;
    }
    assert(s.skip(i as int) =~= Seq::<Seq<char>>::empty());
    assert(chunk_views(out@) + Seq::<Seq<Seq<char>>>::empty() =~= chunk_views(out@));
    out
}

/// Retried statuses: rate limited, and the transient server errors.
pub open spec fn spec_should_retry(status: u16) -> bool {
    status == 429 || status == 500 || status == 502 || status == 503 || status == 504
}

pub fn should_retry_error(status_code: u16) -> (r: bool)
    ensures
        r == spec_should_retry(status_code),
{
    status_code == 429 || status_code == 500 || status_code == 502 || status_code == 503 || status_code == 504
}

/// Retries after the first attempt.
pub const MAX_RETRIES: u32 = 3;

/// Longest wait between attempts, in milliseconds.
pub const MAX_BACKOFF_MS: u64 = 120000;

/// 2 to the power `k`.
pub open spec fn pow2(k: nat) -> nat
    decreases k,
{
    if k == 0 { 1 } else { 2 * pow2((k - 1) as nat) }
}

/// Exponential backoff: 1 s, doubled per attempt, at most 120 s.
pub open spec fn backoff_ms(attempt: nat) -> nat {
    let d = 1000 * pow2(if attempt == 0 { 0 } else { (attempt - 1) as nat });
    if d > MAX_BACKOFF_MS { MAX_BACKOFF_MS as nat } else { d }
}

proof fn lemma_pow2_grows(k: nat)
    ensures
        pow2(k) >= k + 1,
        pow2(k + 1) == 2 * pow2(k),
    decreases k,
{
    if k > 0 {
        lemma_pow2_grows((k - 1) as nat);
    }
}

/// The wait in milliseconds before retry number `attempt` (counting from 1).
pub fn calculate_backoff_delay(attempt: u32) -> (r: u64)
    ensures
        r as nat == backoff_ms(attempt as nat),
{
    let e: u32 = if attempt == 0 { 0 } else { attempt - 1 };
    let mut d: u64 = 1000;
    let mut k: u32 = 0;
    while k < e && d <= MAX_BACKOFF_MS
        invariant
            k <= e,
            d as nat == 1000 * pow2(k as nat),
        decreases e - k,
    {
        proof {
            lemma_pow2_grows(k as nat);
        }
        d = d * 2;
        k += 1;
    }
    proof {
        if k < e {
            assert(pow2(e as nat) >= pow2(k as nat)) by {
                lemma_pow2_monotone(k as nat, e as nat);
            }
        }
    }
    if d > MAX_BACKOFF_MS {
        MAX_BACKOFF_MS
    } else {
        d
    }
}

proof fn lemma_pow2_monotone(a: nat, b: nat)
    requires
        a <= b,
    ensures
        pow2(a) <= pow2(b),
    decreases b - a,
{
    if a < b {
        lemma_pow2_monotone(a, (b - 1) as nat);
        lemma_pow2_grows((b - 1) as nat);
    }
}

/// The sum of a list of sizes.
pub open spec fn total_size(sz: Seq<u64>) -> int
    decreases sz.len(),
{
    if sz.len() == 0 {
        0
    } else {
        total_size(sz.drop_last()) + sz.last()
    }
}

/// The items of the chunks, in order.
pub open spec fn flatten(cs: Seq<Seq<Seq<char>>>) -> Seq<Seq<char>>
    decreases cs.len(),
{
    if cs.len() == 0 {
        Seq::empty()
    } else {
        flatten(cs.drop_last()) + cs.last()
    }
}

/// Greedy packing into bins of `SAFE_CHUNK_SIZE_BYTES`: a file larger than a
/// bin gets a bin of its own; otherwise a file joins the open bin if it fits
/// and opens a new one if not.
pub open spec fn pack_sizes(
    done: Seq<Seq<Seq<char>>>,
    cur: Seq<Seq<char>>,
    cur_size: int,
    ps: Seq<Seq<char>>,
    sz: Seq<u64>,
    k: nat,
) -> Seq<Seq<Seq<char>>>
    decreases ps.len() - k,
{
    if k >= ps.len() {
        if cur.len() > 0 { done.push(cur) } else { done }
    } else if sz[k as int] > SAFE_CHUNK_SIZE_BYTES {
        let d = if cur.len() > 0 { done.push(cur) } else { done };
        pack_sizes(d.push(seq![ps[k as int]]), Seq::empty(), 0, ps, sz, k + 1)
    } else if cur_size + sz[k as int] > SAFE_CHUNK_SIZE_BYTES && cur.len() > 0 {
        pack_sizes(done.push(cur), seq![ps[k as int]], sz[k as int] as int, ps, sz, k + 1)
    } else {
        pack_sizes(done, cur.push(ps[k as int]), cur_size + sz[k as int], ps, sz, k + 1)
    }
}

/// The chunk from index `a` to `b` of the files is within the bin size or holds one file.
pub open spec fn bin_ok(sz: Seq<u64>, a: int, b: int) -> bool {
    b - a == 1 || total_size(sz.subrange(a, b)) <= SAFE_CHUNK_SIZE_BYTES
}

/// Every chunk between consecutive bounds is non-empty and fits its bin.
pub open spec fn bins_ok(sz: Seq<u64>, b: Seq<int>) -> bool {
    forall|j: int| #![trigger b[j]] 0 <= j && j + 1 < b.len() ==> b[j] < b[j + 1] && bin_ok(sz, b[j], b[j + 1])
}

proof fn lemma_bins_push(sz: Seq<u64>, b: Seq<int>, x: int)
    requires
        b.len() >= 1,
        bins_ok(sz, b),
        b.last() < x,
        bin_ok(sz, b.last(), x),
    ensures
        bins_ok(sz, b.push(x)),
{
    assert forall|j: int| #![trigger b.push(x)[j]] 0 <= j && j + 1 < b.push(x).len() implies b.push(x)[j] < b.push(x)[j + 1]
        && bin_ok(sz, b.push(x)[j], b.push(x)[j + 1]) by {
        if j + 1 < b.len() {
            assert(b.push(x)[j] == b[j]);
            assert(b.push(x)[j + 1] == b[j + 1]);
            assert(b[j] < b[j + 1] && bin_ok(sz, b[j], b[j + 1]));
        } else {
            assert(j == b.len() - 1);
            assert(b.push(x)[j] == b.last());
            assert(b.push(x)[j + 1] == x);
        }
    }
}

proof fn lemma_flatten_push(cs: Seq<Seq<Seq<char>>>, c: Seq<Seq<char>>)
    ensures
        flatten(cs.push(c)) == flatten(cs) + c,
{
    assert(cs.push(c).drop_last() =~= cs);
}

proof fn lemma_total_size_step(sz: Seq<u64>, a: int, b: int)
    requires
        0 <= a <= b < sz.len(),
    ensures
        total_size(sz.subrange(a, b + 1)) == total_size(sz.subrange(a, b)) + sz[b],
{
    assert(sz.subrange(a, b + 1).drop_last() =~= sz.subrange(a, b));
}

/// Splits files of the given sizes into sub-chunks for re-sending: the
/// sub-chunks hold the files in their order, each is within 7 MiB or holds a
/// single file, and none is empty.
pub fn split_into_size_chunks(file_paths: &[String], file_sizes: &[u64]) -> (r: Vec<Vec<String>>)
    requires
        file_paths@.len() == file_sizes@.len(),
    ensures
        chunk_views(r@) == pack_sizes(Seq::empty(), Seq::empty(), 0, texts(file_paths@), file_sizes@, 0),
        flatten(chunk_views(r@)) == texts(file_paths@),
        forall|j: int| 0 <= j < r@.len() ==> #[trigger] r@[j]@.len() > 0,
        exists|b: Seq<int>| {
            &&& b.len() == r@.len() + 1
            &&& b[0] == 0
            &&& b.last() == file_paths@.len()
            &&& forall|j: int| 0 <= j < r@.len() ==> b[j] < b[j + 1] && #[trigger] bin_ok(file_sizes@, b[j], b[j + 1])
        },
{
    let ghost s = texts(file_paths@);
    let ghost sz = file_sizes@;
    let ghost target = pack_sizes(Seq::empty(), Seq::empty(), 0, s, sz, 0);
    let mut chunks: Vec<Vec<String>> = Vec::new();
    let mut current: Vec<String> = Vec::new();
    let mut current_size: u64 = 0;
    let ghost mut cs: int = 0;
    let ghost mut b: Seq<int> = seq![0];
    let mut k: usize = 0;
    assert(chunk_views(chunks@) =~= Seq::<Seq<Seq<char>>>::empty());
    assert(texts(current@) =~= s.subrange(0, 0));
    assert(sz.subrange(0, 0) =~= Seq::<u64>::empty());
    assert(flatten(chunk_views(chunks@)) =~= s.subrange(0, 0));
    while k < file_paths.len()
        invariant
            s == texts(file_paths@),
            sz == file_sizes@,
            s.len() == sz.len(),
            k <= s.len(),
            0 <= cs <= k,
            pack_sizes(chunk_views(chunks@), texts(current@), current_size as int, s, sz, k as nat) == target,
            texts(current@) == s.subrange(cs, k as int),
            current_size as int == total_size(sz.subrange(cs, k as int)),
            current_size <= SAFE_CHUNK_SIZE_BYTES,
            flatten(chunk_views(chunks@)) == s.subrange(0, cs),
            b.len() == chunks@.len() + 1,
            b[0] == 0,
            b.last() == cs,
            forall|j: int| 0 <= j < chunks@.len() ==> #[trigger] chunks@[j]@.len() > 0,
            bins_ok(sz, b),
        decreases s.len() - k,
    {
        let file_size = file_sizes[k];
        let item = file_paths[k].clone();
        assert(s[k as int] == item@);
        let ghost done_v = chunk_views(chunks@);
        let ghost cur_v = texts(current@);
        let ghost old_size = current_size as int;
        assert(cur_v.len() == current@.len());
        assert(sz[k as int] == file_size);
        if file_size > SAFE_CHUNK_SIZE_BYTES {
            if current.len() > 0 {
                let ghost before = chunks@;
                chunks.push(current);
                proof {
                    assert(chunk_views(chunks@) =~= chunk_views(before).push(s.subrange(cs, k as int)));
                    lemma_flatten_push(chunk_views(before), s.subrange(cs, k as int));
                    assert(s.subrange(0, cs) + s.subrange(cs, k as int) =~= s.subrange(0, k as int));
                    let ghost ob = b;
                    lemma_bins_push(sz, ob, k as int);
                    b = ob.push(k as int);
                    cs = k as int;
                }
            }
            let mut single: Vec<String> = Vec::new();
            single.push(item);
            let ghost before = chunks@;
            chunks.push(single);
            proof {
                assert(texts(single@) =~= seq![s[k as int]]);
                assert(chunk_views(chunks@) =~= chunk_views(before).push(seq![s[k as int]]));
                lemma_flatten_push(chunk_views(before), seq![s[k as int]]);
                assert(s.subrange(0, k as int) + seq![s[k as int]] =~= s.subrange(0, k + 1));
                let ghost ob = b;
                lemma_bins_push(sz, ob, k + 1);
                b = ob.push(k + 1);
                cs = k + 1;
                assert(sz.subrange(cs, cs) =~= Seq::<u64>::empty());
            }
            current = Vec::new();
            current_size = 0;
            assert(texts(current@) =~= s.subrange(cs, k + 1));
            proof {
                let d = if cur_v.len() > 0 { done_v.push(cur_v) } else { done_v };
                assert(chunk_views(chunks@) == d.push(seq![s[k as int]]));
                assert(texts(current@) =~= Seq::<Seq<char>>::empty());
                assert(pack_sizes(done_v, cur_v, old_size, s, sz, k as nat) == pack_sizes(d.push(seq![s[k as int]]), Seq::empty(), 0, s, sz, (k + 1) as nat));
            }
        } else if current_size + file_size > SAFE_CHUNK_SIZE_BYTES && current.len() > 0 {
            let ghost before = chunks@;
            chunks.push(current);
            proof {
                assert(chunk_views(chunks@) =~= chunk_views(before).push(s.subrange(cs, k as int)));
                lemma_flatten_push(chunk_views(before), s.subrange(cs, k as int));
                assert(s.subrange(0, cs) + s.subrange(cs, k as int) =~= s.subrange(0, k as int));
                let ghost ob = b;
                lemma_bins_push(sz, ob, k as int);
                b = ob.push(k as int);
                cs = k as int;
                lemma_total_size_step(sz, cs, k as int);
                assert(sz.subrange(cs, cs) =~= Seq::<u64>::empty());
            }
            current = Vec::new();
            current.push(item);
            current_size = file_size;
            assert(texts(current@) =~= s.subrange(cs, k + 1));
            assert(texts(current@) =~= seq![s[k as int]]);
            assert(chunk_views(chunks@) == done_v.push(cur_v));
            assert(pack_sizes(done_v, cur_v, old_size, s, sz, k as nat) == pack_sizes(done_v.push(cur_v), seq![s[k as int]], file_size as int, s, sz, (k + 1) as nat));
        } else {
            let ghost before = current@;
            current.push(item);
            proof {
                assert(texts(current@) =~= texts(before).push(s[k as int]));
                assert(texts(current@) =~= s.subrange(cs, k + 1));
                lemma_total_size_step(sz, cs, k as int);
            }
            current_size = current_size + file_size;
            assert(texts(current@) == cur_v.push(s[k as int]));
            assert(pack_sizes(done_v, cur_v, old_size, s, sz, k as nat) == pack_sizes(done_v, cur_v.push(s[k as int]), old_size + file_size, s, sz, (k + 1) as nat));
        }
        k += 1;
    }
    if current.len() > 0 {
        let ghost before = chunks@;
        chunks.push(current);
        proof {
            assert(chunk_views(chunks@) =~= chunk_views(before).push(s.subrange(cs, k as int)));
            lemma_flatten_push(chunk_views(before), s.subrange(cs, k as int));
            assert(s.subrange(0, cs) + s.subrange(cs, k as int) =~= s.subrange(0, k as int));
            let ghost ob = b;
            lemma_bins_push(sz, ob, k as int);
            b = ob.push(k as int);
            cs = k as int;
        }
    }
    proof {
        if texts(current@).len() == 0 {
            assert(cs == k as int);
        }
    }
    assert(s.subrange(0, s.len() as int) =~= s);
    assert(b.last() == file_paths@.len());
    assert forall|j: int| 0 <= j < chunks@.len() implies b[j] < b[j + 1] && #[trigger] bin_ok(file_sizes@, b[j], b[j + 1]) by {
        assert(0 <= j && j + 1 < b.len());
        assert(bin_ok(sz, b[j], b[j + 1]));
    }
    assert(b.len() == chunks@.len() + 1 && b[0] == 0);
    chunks
}

/// Least time between two requests to one webhook, in milliseconds.
pub const MIN_REQUEST_GAP_MS: u64 = 1000;

/// When each webhook was last answered, on a monotonic clock in milliseconds.
pub struct RateLimiter {
    entries: Vec<(String, u64)>,
}

/// The time recorded for `id`: the first entry with that id.
pub open spec fn lookup(s: Seq<(String, u64)>, id: Seq<char>) -> Option<u64>
    decreases s.len(),
{
    if s.len() == 0 {
        None
    } else if s[0].0@ == id {
        Some(s[0].1)
    } else {
        lookup(s.drop_first(), id)
    }
}

/// How long to wait before a request at `now` to a webhook last answered at `last`.
pub open spec fn spec_wait(last: Option<u64>, now: u64) -> int {
    match last {
        None => 0,
        Some(t) => if now >= t && now - t < MIN_REQUEST_GAP_MS { MIN_REQUEST_GAP_MS - (now - t) } else if now < t {
            MIN_REQUEST_GAP_MS as int
        } else {
            0
        },
    }
}

proof fn lemma_lookup_skip(s: Seq<(String, u64)>, id: Seq<char>, i: int)
    requires
        0 <= i < s.len(),
        forall|j: int| 0 <= j < i ==> #[trigger] s[j].0@ != id,
    ensures
        lookup(s, id) == lookup(s.skip(i), id),
    decreases i,
{
    if i > 0 {
        assert(s[0].0@ != id);
        assert forall|j: int| 0 <= j < i - 1 implies #[trigger] s.drop_first()[j].0@ != id by {
            assert(s.drop_first()[j] == s[j + 1]);
        }
        lemma_lookup_skip(s.drop_first(), id, i - 1);
        assert(s.drop_first().skip(i - 1) =~= s.skip(i));
    } else {
        assert(s.skip(0) =~= s);
    }
}

proof fn lemma_lookup_set(s: Seq<(String, u64)>, i: int, e: (String, u64), other: Seq<char>)
    requires
        0 <= i < s.len(),
        s[i].0@ == e.0@,
        forall|j: int| 0 <= j < i ==> #[trigger] s[j].0@ != e.0@,
    ensures
        lookup(s.update(i, e), other) == if other == e.0@ { Some(e.1) } else { lookup(s, other) },
    decreases i,
{
    if i == 0 {
        assert(s.update(0, e).drop_first() =~= s.drop_first());
    } else {
        assert forall|j: int| 0 <= j < i - 1 implies #[trigger] s.drop_first()[j].0@ != e.0@ by {
            assert(s.drop_first()[j] == s[j + 1]);
        }
        lemma_lookup_set(s.drop_first(), i - 1, e, other);
        assert(s.update(i, e).drop_first() =~= s.drop_first().update(i - 1, e));
        assert(s[0].0@ != e.0@);
    }
}

proof fn lemma_lookup_push(s: Seq<(String, u64)>, e: (String, u64), other: Seq<char>)
    requires
        lookup(s, e.0@).is_none(),
    ensures
        lookup(s.push(e), other) == if other == e.0@ { Some(e.1) } else { lookup(s, other) },
    decreases s.len(),
{
    if s.len() == 0 {
        assert(s.push(e).drop_first() =~= Seq::<(String, u64)>::empty());
        assert(s.push(e)[0] == e);
        assert(lookup(s.push(e).drop_first(), other) == None::<u64>);
    } else {
        assert(s.push(e).drop_first() =~= s.drop_first().push(e));
        assert(s.push(e)[0] == s[0]);
        assert(s[0].0@ != e.0@);
        lemma_lookup_push(s.drop_first(), e, other);
        assert(lookup(s.push(e), other) == if s[0].0@ == other { Some(s[0].1) } else { lookup(s.drop_first().push(e), other) });
        assert(lookup(s, other) == if s[0].0@ == other { Some(s[0].1) } else { lookup(s.drop_first(), other) });
    }
}

impl RateLimiter {
    /// The time last recorded for a webhook.
    pub closed spec fn last_seen(&self, id: Seq<char>) -> Option<u64> {
        lookup(self.entries@, id)
    }

    /// No webhook has been used yet.
    pub fn new() -> (r: Self)
        ensures
            forall|id: Seq<char>| r.last_seen(id).is_none(),
    {
        RateLimiter { entries: Vec::new() }
    }

    fn find(&self, webhook_id: &str) -> (r: Option<usize>)
        ensures
            match r {
                Some(i) => i < self.entries@.len() && self.entries@[i as int].0@ == webhook_id@
                    && forall|j: int| 0 <= j < i ==> #[trigger] self.entries@[j].0@ != webhook_id@,
                None => self.last_seen(webhook_id@).is_none(),
            },
    {
        let ghost s = self.entries@;
        let key = owned(webhook_id);
        let mut i: usize = 0;
        while i < self.entries.len()
            invariant
                i <= s.len(),
                s == self.entries@,
                key@ == webhook_id@,
                forall|j: int| 0 <= j < i ==> #[trigger] s[j].0@ != webhook_id@,
            decreases s.len() - i,
        {
            if self.entries[i].0 == key {
                return Some(i);
            }
            i += 1;
        }
        proof {
            assert forall|t: int| 0 <= t <= s.len() implies lookup(s.skip(t), webhook_id@).is_none() by {
                lemma_none_suffix(s, webhook_id@, t);
            }
            assert(s.skip(0) =~= s);
        }
        None
    }

    /// How long to sleep before a request at `now_ms` to this webhook.
    pub fn wait_time_ms(&self, webhook_id: &str, now_ms: u64) -> (r: u64)
        ensures
            r as int == spec_wait(self.last_seen(webhook_id@), now_ms),
            r <= MIN_REQUEST_GAP_MS,
    {
        match self.find(webhook_id) {
            None => 0,
            Some(i) => {
                proof {
                    lemma_lookup_skip(self.entries@, webhook_id@, i as int);
                }
                let t = self.entries[i].1;
                if now_ms < t {
                    MIN_REQUEST_GAP_MS
                } else if now_ms - t < MIN_REQUEST_GAP_MS {
                    MIN_REQUEST_GAP_MS - (now_ms - t)
                } else {
                    0
                }
            },
        }
    }

    /// Records that this webhook answered at `now_ms`.
    pub fn update_rate_limit(&mut self, webhook_id: &str, now_ms: u64)
        ensures
            forall|id: Seq<char>| #[trigger] final(self).last_seen(id) == if id == webhook_id@ {
                Some(now_ms)
            } else {
                old(self).last_seen(id)
            },
    {
        match self.find(webhook_id) {
            Some(i) => {
                let e = (owned(webhook_id), now_ms);
                proof {
                    assert forall|id: Seq<char>| #[trigger] lookup(self.entries@.update(i as int, e), id) == if id == webhook_id@ {
                        Some(now_ms)
                    } else {
                        lookup(self.entries@, id)
                    } by {
                        lemma_lookup_set(self.entries@, i as int, e, id);
                    }
                }
                self.entries.set(i, e);
            },
            None => {
                let e = (owned(webhook_id), now_ms);
                proof {
                    assert forall|id: Seq<char>| #[trigger] lookup(self.entries@.push(e), id) == if id == webhook_id@ {
                        Some(now_ms)
                    } else {
                        lookup(self.entries@, id)
                    } by {
                        lemma_lookup_push(self.entries@, e, id);
                    }
                }
                self.entries.push(e);
            },
        }
    }
}

proof fn lemma_none_suffix(s: Seq<(String, u64)>, id: Seq<char>, t: int)
    requires
        0 <= t <= s.len(),
        forall|j: int| 0 <= j < s.len() ==> #[trigger] s[j].0@ != id,
    ensures
        lookup(s.skip(t), id).is_none(),
    decreases s.len() - t,
{
    if t < s.len() {
        lemma_none_suffix(s, id, t + 1);
        assert(s.skip(t).drop_first() =~= s.skip(t + 1));
        assert(s.skip(t)[0] == s[t]);
    }
}

/// Requests to one webhook start at least a second apart: a request sent
/// after sleeping what the limiter asks, on a clock that does not run
/// backwards, starts a second or more after the webhook last answered.
pub proof fn lemma_requests_spaced(l: RateLimiter, id: Seq<char>, now: u64, wait: u64)
    requires
        l.last_seen(id).is_some(),
        now >= l.last_seen(id).unwrap(),
        wait as int == spec_wait(l.last_seen(id), now),
    ensures
        now + wait >= l.last_seen(id).unwrap() + MIN_REQUEST_GAP_MS,
{
}

proof fn lemma_total_size_prefix(sz: Seq<u64>, i: int)
    requires
        0 <= i <= sz.len(),
    ensures
        total_size(sz.take(i)) <= total_size(sz),
        total_size(sz.take(i)) >= 0,
    decreases sz.len(),
{
    if sz.len() > 0 {
        if i == sz.len() {
            assert(sz.take(i) =~= sz);
            lemma_total_size_prefix(sz.drop_last(), i - 1);
        } else {
            assert(sz.drop_last().take(i) =~= sz.take(i));
            lemma_total_size_prefix(sz.drop_last(), i);
        }
    }
}

/// Whether files of these sizes add up to more than `cap` bytes.
pub fn total_exceeds(sizes: &[u64], cap: u64) -> (r: bool)
    ensures
        r == (total_size(sizes@) > cap),
{
    let mut acc: u128 = 0;
    let mut i: usize = 0;
    assert(sizes@.take(0) =~= Seq::<u64>::empty());
    while i < sizes.len()
        invariant
            i <= sizes@.len(),
            acc as int == total_size(sizes@.take(i as int)),
            acc <= cap,
        decreases sizes@.len() - i,
    {
        assert(sizes@.take(i + 1).drop_last() =~= sizes@.take(i as int));
        acc = acc + sizes[i] as u128;
        i += 1;
        if acc > cap as u128 {
            proof {
                lemma_total_size_prefix(sizes@, i as int);
            }
            return true;
        }
    }
    assert(sizes@.take(sizes@.len() as int) =~= sizes@);
    false
}

} // verus!

