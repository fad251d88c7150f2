//! What the core reads from and hands to Discord's webhook API: the thread id
//! in a response, the webhook id in a URL, and the body of a request.
use vstd::prelude::*;
use crate::json::{json_string_at, opt_view, string_at};
use crate::text::owned;

verus! {

/// The thread id that a forum post's response names: its `id`, else its `channel_id`.
pub open spec fn thread_id_of(body: Seq<char>) -> Option<Seq<char>> {
    if body.len() == 0 {
        None
    } else {
        match json_string_at(body, seq!["id"@]) {
            Some(id) => Some(id),
            None => json_string_at(body, seq!["channel_id"@]),
        }
    }
}

/// The first of two candidate thread ids that is present.
pub fn choose_thread_id(id: Option<String>, channel_id: Option<String>) -> (r: Option<String>)
    ensures
        opt_view(r) == match opt_view(id) {
            Some(v) => Some(v),
            None => opt_view(channel_id),
        },
{
    match id {
        Some(v) => Some(v),
        None => channel_id,
    }
}

/// The thread id in the response to the first message of a forum post.
pub fn extract_thread_id(response_data: &str) -> (r: Option<String>)
    ensures
        opt_view(r) == thread_id_of(response_data@),
{
    if response_data.is_empty() {
        return None;
    }
    let id_key: [&str; 1] = ["id"];
    let id = string_at(response_data, &id_key);
    proof {
        assert(crate::json::key_path(id_key@) =~= seq!["id"@]);
    }
    match id {
        Some(v) => Some(v),
        None => {
            let channel_key: [&str; 1] = ["channel_id"];
            let c = string_at(response_data, &channel_key);
            proof {
                assert(crate::json::key_path(channel_key@) =~= seq!["channel_id"@]);
            }
            c
        },
    }
}

/// Index of the last `c` in `s` before position `end`, or -1.
pub open spec fn last_index_before(s: Seq<char>, c: char, end: int) -> int
    decreases end,
{
    if end <= 0 {
        -1
    } else if s[end - 1] == c {
        end - 1
    } else {
        last_index_before(s, c, end - 1)
    }
}

/// The next-to-last '/'-separated part of a webhook URL, which is the
/// webhook's id; "default" when the URL has no '/'.
pub open spec fn webhook_id_of(url: Seq<char>) -> Seq<char> {
    let last = last_index_before(url, '/', url.len() as int);
    if last < 0 {
        "default"@
    } else {
        url.subrange(last_index_before(url, '/', last) + 1, last)
    }
}

pub proof fn lemma_last_index_range(s: Seq<char>, c: char, end: int)
    requires
        end <= s.len(),
    ensures
        -1 <= last_index_before(s, c, end) < end || (end <= 0 && last_index_before(s, c, end) == -1),
        last_index_before(s, c, end) >= 0 ==> s[last_index_before(s, c, end)] == c,
    decreases end,
{
    if end > 0 && s[end - 1] != c {
        lemma_last_index_range(s, c, end - 1);
    }
}

/// Index of the last `c` in `s` before position `end`, or -1.
pub fn last_char_before(s: &str, c: char, end: usize) -> (r: i64)
    requires
        end <= s@.len(),
        s@.len() < i64::MAX,
    ensures
        r as int == last_index_before(s@, c, end as int),
        -1 <= r < end,
{
    proof {
        lemma_last_index_range(s@, c, end as int);
    }
    let mut i: usize = end;
    while i > 0
        invariant
            i <= end,
            end <= s@.len(),
            s@.len() < i64::MAX,
            last_index_before(s@, c, end as int) == last_index_before(s@, c, i as int),
        decreases i,
    {
        if s.get_char(i - 1) == c {
            return (i - 1) as i64;
        }
        i -= 1;
    }
    -1
}

/// The id of the webhook a URL addresses, which keys the rate limit.
pub fn extract_webhook_id(url: &str) -> (r: String)
    requires
        url@.len() < i64::MAX,
    ensures
        r@ == webhook_id_of(url@),
{
    let n = url.unicode_len();
    let last = last_char_before(url, '/', n);
    if last < 0 {
        return owned("default");
    }
    proof {
        lemma_last_index_range(url@, '/', n as int);
    }
    let prev = last_char_before(url, '/', last as usize);
    proof {
        lemma_last_index_range(url@, '/', last as int);
    }
    owned(url.substring_char((prev + 1) as usize, last as usize))
}

/// The part of a file name after its last '.', unless that '.' opens the name.
pub open spec fn extension_of(name: Seq<char>) -> Option<Seq<char>> {
    let d = last_index_before(name, '.', name.len() as int);
    if d <= 0 {
        None
    } else {
        Some(name.subrange(d + 1, name.len() as int))
    }
}

/// The MIME type an attachment is sent with, chosen by its extension.
pub open spec fn mime_of(name: Seq<char>) -> Seq<char> {
    match extension_of(name) {
        Some(e) => if e == "jpg"@ || e == "jpeg"@ {
            "image/jpeg"@
        } else if e == "webp"@ {
            "image/webp"@
        } else if e == "gif"@ {
            "image/gif"@
        } else {
            "image/png"@
        },
        None => "image/png"@,
    }
}

/// Whether two texts are equal.
pub fn same_text(a: &str, b: &str) -> (r: bool)
    ensures
        r == (a@ == b@),
{
    owned(a) == owned(b)
}

/// The MIME type of an attachment with this file name.
pub fn mime_type_for(file_name: &str) -> (r: String)
    requires
        file_name@.len() < i64::MAX,
    ensures
        r@ == mime_of(file_name@),
{
    let n = file_name.unicode_len();
    let d = last_char_before(file_name, '.', n);
    proof {
        lemma_last_index_range(file_name@, '.', n as int);
    }
    if d <= 0 {
        return owned("image/png");
    }
    let ext = file_name.substring_char((d + 1) as usize, n);
    if same_text(ext, "jpg") || same_text(ext, "jpeg") {
        owned("image/jpeg")
    } else if same_text(ext, "webp") {
        owned("image/webp")
    } else if same_text(ext, "gif") {
        owned("image/gif")
    } else {
        owned("image/png")
    }
}

/// One attachment of a request.
#[derive(Debug, Clone)]
pub struct PayloadFile {
    pub filename: String,
    pub data: Vec<u8>,
    pub mime_type: String,
    pub field_name: String,
}

/// The body of one webhook request: text fields and attachments.
#[derive(Debug, Clone)]
pub struct UploadPayload {
    files: Vec<PayloadFile>,
    text_fields: Vec<(String, String)>,
}

/// The text fields with `key` set to `value`: an existing field of that key
/// takes the new value in place, a new key goes last.
pub open spec fn set_field(fields: Seq<(Seq<char>, Seq<char>)>, key: Seq<char>, value: Seq<char>) -> Seq<(Seq<char>, Seq<char>)> {
    if exists|i: int| 0 <= i < fields.len() && #[trigger] fields[i].0 == key {
        let i = choose|i: int| 0 <= i < fields.len() && #[trigger] fields[i].0 == key;
        fields.update(i, (key, value))
    } else {
        fields.push((key, value))
    }
}

pub open spec fn field_views(fields: Seq<(String, String)>) -> Seq<(Seq<char>, Seq<char>)> {
    fields.map_values(|f: (String, String)| (f.0@, f.1@))
}

/// No two fields share a key.
pub open spec fn keys_unique(fields: Seq<(Seq<char>, Seq<char>)>) -> bool {
    forall|i: int, j: int| 0 <= i < fields.len() && 0 <= j < fields.len() && i != j ==> #[trigger] fields[i].0 != #[trigger] fields[j].0
}

impl UploadPayload {
    /// The text fields, by key and value.
    pub closed spec fn fields(&self) -> Seq<(Seq<char>, Seq<char>)> {
        field_views(self.text_fields@)
    }

    /// The attachments, in order.
    pub closed spec fn attachments(&self) -> Seq<PayloadFile> {
        self.files@
    }

    pub closed spec fn wf(&self) -> bool {
        keys_unique(self.fields())
    }

    /// An empty request.
    pub fn new() -> (r: Self)
        ensures
            r.wf(),
            r.fields().len() == 0,
            r.attachments().len() == 0,
    {
        let r = UploadPayload { files: Vec::new(), text_fields: Vec::new() };
        assert(r.fields() =~= Seq::<(Seq<char>, Seq<char>)>::empty());
        r
    }

    /// Sets a text field, replacing an earlier value of the same key.
    pub fn add_text_field(&mut self, key: String, value: String)
        requires
            old(self).wf(),
        ensures
            final(self).wf(),
            final(self).fields() == set_field(old(self).fields(), key@, value@),
            final(self).attachments() == old(self).attachments(),
    {
        let ghost o = self.fields();
        let ghost of = self.files@;
        let mut i: usize = 0;
        while i < self.text_fields.len()
            invariant
                i <= self.text_fields@.len(),
                self.files@ == of,
                of == old(self).files@,
                o == old(self).fields(),
                o == field_views(self.text_fields@),
                keys_unique(o),
                forall|j: int| 0 <= j < i ==> #[trigger] o[j].0 != key@,
            decreases self.text_fields@.len() - i,
        {
            if self.text_fields[i].0 == key {
                proof {
                    assert(o[i as int].0 == key@);
                    assert(exists|t: int| 0 <= t < o.len() && #[trigger] o[t].0 == key@);
                    let c = choose|i: int| 0 <= i < o.len() && #[trigger] o[i].0 == key@;
                    assert(c == i as int);
                    assert(set_field(o, key@, value@) == o.update(i as int, (key@, value@)));
                }
                self.text_fields.set(i, (key, value));
                proof {
                    assert(self.fields() =~= o.update(i as int, (key@, value@)));
                }
                return;
            }
            i += 1;
        }
        self.text_fields.push((key, value));
        proof {
            assert(self.fields() =~= o.push((key@, value@)));
            assert(!(exists|t: int| 0 <= t < o.len() && #[trigger] o[t].0 == key@));
        }
    }

    /// Adds an attachment read from a file, named `files[<n>]` by the caller.
    pub fn add_file_data(&mut self, filename: String, data: Vec<u8>, field_name: String)
        requires
            old(self).wf(),
            filename@.len() < i64::MAX,
        ensures
            final(self).wf(),
            final(self).fields() == old(self).fields(),
            final(self).attachments().len() == old(self).attachments().len() + 1,
            final(self).attachments().drop_last() == old(self).attachments(),
            final(self).attachments().last().filename@ == filename@,
            final(self).attachments().last().mime_type@ == mime_of(filename@),
            final(self).attachments().last().field_name@ == field_name@,
            final(self).attachments().last().data@ == data@,
    {
        let mime_type = mime_type_for(filename.as_str());
        let ghost before = self.files@;
        self.files.push(PayloadFile { filename, data, mime_type, field_name });
        assert(self.files@.drop_last() =~= before);
    }

    /// The text fields, for building the request.
    pub fn text_fields(&self) -> (r: &Vec<(String, String)>)
        ensures
            field_views(r@) == self.fields(),
    {
        &self.text_fields
    }

    /// The attachments, for building the request.
    pub fn files(&self) -> (r: &Vec<PayloadFile>)
        ensures
            r@ == self.attachments(),
    {
        &self.files
    }
}

} // verus!
