//! Validation of what the user hands the core: webhook names and URLs, file
//! paths, upload settings and file sizes.
use vstd::prelude::*;
use crate::discord::{extension_of, last_char_before, last_index_before};
use crate::errors::AppError;
use crate::text::{append, blen, byte_len, owned, trim, trim_end_chars, trim_start_chars, white_space};

verus! {

/// Longest webhook name, in bytes.
pub const MAX_NAME_BYTES: usize = 100;

/// Longest webhook URL, in bytes.
pub const MAX_URL_BYTES: usize = 500;

/// Largest image file accepted: 50 MiB.
pub const MAX_FILE_SIZE: u64 = 52428800;

/// An ASCII decimal digit.
pub open spec fn ascii_digit(c: char) -> bool {
    '0' <= c <= '9'
}

/// A character of a webhook token: ASCII letter or digit, '_' or '-'.
pub open spec fn token_char(c: char) -> bool {
    ('a' <= c <= 'z') || ('A' <= c <= 'Z') || ascii_digit(c) || c == '_' || c == '-'
}

/// 17 to 19 digits, '/', then 60 to 80 token characters, and nothing more.
pub open spec fn id_and_token(r: Seq<char>) -> bool {
    exists|k: int| {
        &&& 17 <= k <= 19
        &&& k < r.len()
        &&& #[trigger] r[k] == '/'
        &&& 60 <= r.len() - k - 1 <= 80
        &&& forall|i: int| 0 <= i < k ==> ascii_digit(#[trigger] r[i])
        &&& forall|i: int| k < i < r.len() ==> token_char(#[trigger] r[i])
    }
}

/// `url` opens with `prefix` and continues with a webhook id and token.
pub open spec fn webhook_after(url: Seq<char>, prefix: Seq<char>) -> bool {
    url.len() >= prefix.len() && url.take(prefix.len() as int) == prefix && id_and_token(url.skip(prefix.len() as int))
}

/// The shape of a Discord webhook URL:
/// `https://(discord.com|discordapp.com)/api/webhooks/<17 to 19 digits>/<60 to 80 of [A-Za-z0-9_-]>`.
pub open spec fn webhook_url_shape(url: Seq<char>) -> bool {
    webhook_after(url, "https://discord.com/api/webhooks/"@) || webhook_after(url, "https://discordapp.com/api/webhooks/"@)
}

/// Relies on `regex::Regex::is_match` with
/// `^https://(discord\.com|discordapp\.com)/api/webhooks/[0-9]{17,19}/[A-Za-z0-9_\-]{60,80}$`.
#[verifier::external_body]
fn matches_webhook_url(url: &str) -> (r: bool)
    ensures
        r == webhook_url_shape(url@),
{
    let re = regex::Regex::new(r"^https://(discord\.com|discordapp\.com)/api/webhooks/[0-9]{17,19}/[A-Za-z0-9_\-]{60,80}$").unwrap();
    re.is_match(url)
}

/// A character allowed in a webhook name.
pub open spec fn name_char(c: char) -> bool {
    ('a' <= c <= 'z') || ('A' <= c <= 'Z') || ('0' <= c <= '9') || white_space(c) || c == '-' || c == '_' || c == '.'
}

/// Relies on `regex::Regex::is_match` with `^[a-zA-Z0-9\s\-_\.]+$`, whose `\s`
/// is Unicode White_Space, the class `char::is_whitespace` tests.
#[verifier::external_body]
fn matches_name_chars(name: &str) -> (r: bool)
    ensures
        r == (name@.len() > 0 && forall|i: int| 0 <= i < name@.len() ==> name_char(#[trigger] name@[i])),
{
    let re = regex::Regex::new(r"^[a-zA-Z0-9\s\-_\.]+$").unwrap();
    re.is_match(name)
}

/// `s` without leading and trailing white space.
pub open spec fn trimmed(s: Seq<char>) -> Seq<char> {
    trim_start_chars(trim_end_chars(s))
}

/// A webhook name: non-empty once trimmed, at most 100 bytes, and made of
/// letters, digits, white space, '-', '_' and '.'.
pub open spec fn name_ok(name: Seq<char>) -> bool {
    let t = trimmed(name);
    t.len() > 0 && blen(t) <= MAX_NAME_BYTES && forall|i: int| 0 <= i < t.len() ==> name_char(#[trigger] t[i])
}

/// Whether `s` holds two dots in a row.
pub open spec fn has_double_dot(s: Seq<char>) -> bool {
    exists|i: int| 0 <= i < s.len() - 1 && #[trigger] s[i] == '.' && s[i + 1] == '.'
}

/// Whether `s` holds a '~'.
pub open spec fn has_tilde(s: Seq<char>) -> bool {
    exists|i: int| 0 <= i < s.len() && #[trigger] s[i] == '~'
}

/// The last component of a path, after its last '/' or '\\'.
pub open spec fn base_name(s: Seq<char>) -> Seq<char> {
    let a = last_index_before(s, '/', s.len() as int);
    let b = last_index_before(s, '\\', s.len() as int);
    s.subrange(if a > b { a + 1 } else { b + 1 }, s.len() as int)
}

/// Equal letters up to ASCII case.
pub open spec fn ascii_ci_char(a: char, b: char) -> bool {
    a == b || ('A' <= a <= 'Z' && (a as u32) + 32 == b as u32) || ('A' <= b <= 'Z' && (b as u32) + 32 == a as u32)
}

/// Equal texts up to ASCII case.
pub open spec fn ascii_ci_eq(a: Seq<char>, b: Seq<char>) -> bool {
    a.len() == b.len() && forall|i: int| 0 <= i < a.len() ==> ascii_ci_char(#[trigger] a[i], b[i])
}

/// The image file extensions accepted.
pub open spec fn image_extension(e: Seq<char>) -> bool {
    ascii_ci_eq(e, "png"@) || ascii_ci_eq(e, "jpg"@) || ascii_ci_eq(e, "jpeg"@) || ascii_ci_eq(e, "webp"@)
        || ascii_ci_eq(e, "gif"@) || ascii_ci_eq(e, "bmp"@)
}

fn same_ci(a: &str, b: &str) -> (r: bool)
    ensures
        r == ascii_ci_eq(a@, b@),
{
    let n = a.unicode_len();
    if n != b.unicode_len() {
        return false;
    }
    let mut i: usize = 0;
    while i < n
        invariant
            n == a@.len(),
            n == b@.len(),
            i <= n,
            forall|j: int| 0 <= j < i ==> ascii_ci_char(#[trigger] a@[j], b@[j]),
        decreases n - i,
    {
        let x = a.get_char(i);
        let y = b.get_char(i);
        let ok = x == y || ('A' <= x && x <= 'Z' && (x as u32) + 32 == y as u32) || ('A' <= y && y <= 'Z' && (y as u32) + 32 == x as u32);
        if !ok {
            return false;
        }
        i += 1;
    }
    true
}

fn find_double_dot(s: &str) -> (r: bool)
    ensures
        r == has_double_dot(s@),
{
    let n = s.unicode_len();
    let mut i: usize = 0;
    while n > 0 && i < n - 1
        invariant
            n == s@.len(),
            i <= n,
            forall|j: int| 0 <= j < i && j < n - 1 ==> !(#[trigger] s@[j] == '.' && s@[j + 1] == '.'),
        decreases n - i,
    {
        if s.get_char(i) == '.' && s.get_char(i + 1) == '.' {
            return true;
        }
        i += 1;
    }
    false
}

fn find_tilde(s: &str) -> (r: bool)
    ensures
        r == has_tilde(s@),
{
    let n = s.unicode_len();
    let mut i: usize = 0;
    while i < n
        invariant
            n == s@.len(),
            i <= n,
            forall|j: int| 0 <= j < i ==> #[trigger] s@[j] != '~',
        decreases n - i,
    {
        if s.get_char(i) == '~' {
            return true;
        }
        i += 1;
    }
    false
}

/// The path after its last separator.
fn base_name_of(path: &str) -> (r: &str)
    requires
        path@.len() < i64::MAX,
    ensures
        r@ == base_name(path@),
        r@.len() <= path@.len(),
{
    let n = path.unicode_len();
    let a = last_char_before(path, '/', n);
    let b = last_char_before(path, '\\', n);
    let start = if a > b { a + 1 } else { b + 1 };
    path.substring_char(start as usize, n)
}

/// A character the file name sanitizer replaces.
pub open spec fn unsafe_char(c: char) -> bool {
    c == '<' || c == '>' || c == ':' || c == '"' || c == '/' || c == '\\' || c == '|' || c == '?' || c == '*'
        || (c as u32) < 0x20
}

/// `s` with every unsafe character replaced by '_'.
pub open spec fn replace_unsafe(s: Seq<char>) -> Seq<char> {
    s.map_values(|c: char| if unsafe_char(c) { '_' } else { c })
}

/// Relies on `regex::Regex::replace_all` with `[<>:"/\\|?*\x00-\x1f]` and "_":
/// every character of the class becomes '_'.
#[verifier::external_body]
fn replace_unsafe_chars(s: &str) -> (r: String)
    ensures
        r@ == replace_unsafe(s@),
{
    let re = regex::Regex::new(r#"[<>:"/\\|?*\x00-\x1f]"#).unwrap();
    re.replace_all(s, "_").to_string()
}

/// The length of the longest prefix of `s` within `limit` bytes, trying from `k` down.
pub open spec fn fit_len(s: Seq<char>, limit: nat, k: nat) -> nat
    decreases k,
{
    if k == 0 || blen(s.take(k as int)) <= limit {
        k
    } else {
        fit_len(s, limit, (k - 1) as nat)
    }
}

/// A safe file name: trimmed, unsafe characters replaced, and cut to at most
/// 255 bytes with "..." at the end when longer.
pub open spec fn sanitized(name: Seq<char>) -> Seq<char> {
    let s = replace_unsafe(trimmed(name));
    if blen(s) > 255 {
        s.take(fit_len(s, 252, s.len()) as int) + "..."@
    } else {
        s
    }
}

pub struct InputValidator;

impl InputValidator {
    pub fn validate_webhook_name(name: &str) -> (r: Result<(), AppError>)
        ensures
            r.is_ok() == name_ok(name@),
            r.is_err() ==> r matches Err(AppError::Validation { .. }),
    {
        let t = trim(name);
        if t.as_str().is_empty() {
            return Err(AppError::validation("name", "Webhook name cannot be empty"));
        }
        if byte_len(t.as_str()) > MAX_NAME_BYTES {
            return Err(AppError::validation("name", "Webhook name too long (max 100 characters)"));
        }
        if !matches_name_chars(t.as_str()) {
            return Err(AppError::validation("name", "Webhook name contains invalid characters"));
        }
        Ok(())
    }

    /// Accepts a Discord webhook URL of at most 500 bytes. An empty URL and an
    /// overlong one are `Validation` errors; any other URL that does not have
    /// the webhook shape is `InvalidWebhook`.
    pub fn validate_webhook_url(url: &str) -> (r: Result<(), AppError>)
        ensures
            r.is_ok() <==> (trimmed(url@).len() > 0 && webhook_url_shape(trimmed(url@)) && blen(trimmed(url@)) <= MAX_URL_BYTES),
            trimmed(url@).len() == 0 ==> r matches Err(AppError::Validation { .. }),
            trimmed(url@).len() > 0 && !webhook_url_shape(trimmed(url@)) ==> (r matches Err(AppError::InvalidWebhook { url: u }) && u@ == trimmed(url@)),
            trimmed(url@).len() > 0 && webhook_url_shape(trimmed(url@)) && blen(trimmed(url@)) > MAX_URL_BYTES ==> r matches Err(AppError::Validation { .. }),
    {
        let t = trim(url);
        if t.as_str().is_empty() {
            return Err(AppError::validation("url", "Webhook URL cannot be empty"));
        }
        if !matches_webhook_url(t.as_str()) {
            return Err(AppError::invalid_webhook(t.as_str()));
        }
        if byte_len(t.as_str()) > MAX_URL_BYTES {
            return Err(AppError::validation("url", "Webhook URL too long"));
        }
        Ok(())
    }

    /// The number of images per message must lie in 1 to 10.
    pub fn validate_upload_settings(max_images: u8, group_metadata: bool) -> (r: Result<(), AppError>)
        ensures
            r.is_ok() == (1 <= max_images <= 10),
            r.is_err() ==> (r matches Err(AppError::Validation { field, .. }) && field@ == "max_images"@),
    {
        if max_images == 0 || max_images > 10 {
            return Err(AppError::validation("max_images", "Must be between 1 and 10"));
        }
        Ok(())
    }

    /// A file of `size` bytes is accepted up to 50 MiB.
    pub fn validate_file_size(file_path: &str, size: u64) -> (r: Result<(), AppError>)
        ensures
            r.is_ok() == (size <= MAX_FILE_SIZE),
            r.is_err() ==> (r matches Err(AppError::FileTooLarge { path: p }) && p@ == file_path@),
    {
        if size > MAX_FILE_SIZE {
            return Err(AppError::file_too_large(file_path));
        }
        Ok(())
    }

    /// The checks on a file path that need no file system: not blank, no
    /// ".." or "~", and an image extension (png, jpg, jpeg, webp, gif, bmp, in
    /// any ASCII case) on its last component. Whether the file exists is for
    /// the host to check.
    pub fn validate_file_path(path: &str) -> (r: Result<(), AppError>)
        requires
            path@.len() < i64::MAX,
        ensures
            trimmed(path@).len() == 0 ==> r matches Err(AppError::Validation { .. }),
            trimmed(path@).len() > 0 && (has_double_dot(path@) || has_tilde(path@)) ==> r matches Err(AppError::Validation { .. }),
            trimmed(path@).len() > 0 && !has_double_dot(path@) && !has_tilde(path@) ==> match extension_of(base_name(path@)) {
                None => r matches Err(AppError::Validation { .. }),
                Some(e) => if image_extension(e) {
                    r.is_ok()
                } else {
                    r matches Err(AppError::InvalidFileType { path: p }) && p@ == path@
                },
            },
    {
        let t = trim(path);
        if t.as_str().is_empty() {
            return Err(AppError::validation("file_path", "File path cannot be empty"));
        }
        if find_double_dot(path) || find_tilde(path) {
            return Err(AppError::validation("file_path", "Invalid file path detected"));
        }
        let name = base_name_of(path);
        let n = name.unicode_len();
        let d = last_char_before(name, '.', n);
        if d <= 0 {
            return Err(AppError::validation("file_path", "File must have an extension"));
        }
        let ext = name.substring_char((d + 1) as usize, n);
        if same_ci(ext, "png") || same_ci(ext, "jpg") || same_ci(ext, "jpeg") || same_ci(ext, "webp")
            || same_ci(ext, "gif") || same_ci(ext, "bmp") {
            Ok(())
        } else {
            Err(AppError::invalid_file_type(path))
        }
    }

    /// A name that is safe to use as a file name.
    pub fn sanitize_filename(filename: &str) -> (r: String)
        ensures
            r@ == sanitized(filename@),
    {
        let t = trim(filename);
        let s = replace_unsafe_chars(t.as_str());
        if byte_len(s.as_str()) <= 255 {
            return s;
        }
        let n = s.as_str().unicode_len();
        let mut k: usize = n;
        while k > 0 && byte_len(s.as_str().substring_char(0, k)) > 252
            invariant
                k <= n,
                n == s@.len(),
                fit_len(s@, 252, k as nat) == fit_len(s@, 252, n as nat),
            decreases k,
        {
            k -= 1;
        }
        let mut out = owned(s.as_str().substring_char(0, k));
        append(&mut out, "...");
        out
    }
}

} // verus!
