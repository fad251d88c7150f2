//! When a screenshot was taken, read from its file name: VRChat names files
//! `..._YYYY-MM-DD_HH-MM-SS.mmm_...` in local wall-clock time.
use vstd::prelude::*;
use crate::text::{append, owned};

verus! {

/// The date and time groups of the first match of
/// `(\d{4}-\d{2}-\d{2})_(\d{2}-\d{2}-\d{2}(?:\.\d+)?)` in a file name.
pub uninterp spec fn stamp_captures(name: Seq<char>) -> Option<(Seq<char>, Seq<char>)>;

/// The seconds since the epoch of a "YYYY-MM-DD HH:MM:SS[.fff]" text read as
/// a UTC wall clock, when chrono parses it.
pub uninterp spec fn naive_seconds(text: Seq<char>) -> Option<int>;

/// Relies on `regex::Regex::captures` with the VRChat file name pattern.
#[verifier::external_body]
fn filename_stamp(name: &str) -> (r: Option<(String, String)>)
    ensures
        match r {
            Some((d, t)) => stamp_captures(name@) == Some((d@, t@)),
            None => stamp_captures(name@).is_none(),
        },
{
    let re = regex::Regex::new(r"(\d{4}-\d{2}-\d{2})_(\d{2}-\d{2}-\d{2}(?:\.\d+)?)").ok()?;
    let caps = re.captures(name)?;
    Some((caps.get(1)?.as_str().to_string(), caps.get(2)?.as_str().to_string()))
}

/// Relies on `chrono::NaiveDateTime::parse_from_str` with "%Y-%m-%d %H:%M:%S%.f",
/// then "%Y-%m-%d %H:%M:%S", and `and_utc().timestamp()`.
#[verifier::external_body]
fn naive_epoch(text: &str) -> (r: Option<i64>)
    ensures
        match r {
            Some(n) => naive_seconds(text@) == Some(n as int),
            None => naive_seconds(text@).is_none(),
        },
{
    for format in ["%Y-%m-%d %H:%M:%S%.f", "%Y-%m-%d %H:%M:%S"] {
        if let Ok(dt) = chrono::NaiveDateTime::parse_from_str(text, format) {
            return Some(dt.and_utc().timestamp());
        }
    }
    None
}

/// The time part with its '-' separators written as ':'.
pub open spec fn colon_time(t: Seq<char>) -> Seq<char> {
    t.map_values(|c: char| if c == '-' { ':' } else { c })
}

/// The date and time groups joined as chrono reads them.
pub open spec fn stamp_text(d: Seq<char>, t: Seq<char>) -> Seq<char> {
    d + " "@ + colon_time(t)
}

/// The wall-clock time a file name records, in seconds since the epoch as
/// if the wall clock were UTC.
pub open spec fn name_wall_clock(name: Seq<char>) -> Option<int> {
    match stamp_captures(name) {
        Some((d, t)) => naive_seconds(stamp_text(d, t)),
        None => None,
    }
}

fn colon_time_text(t: &str) -> (r: String)
    ensures
        r@ == colon_time(t@),
{
    let n = t.unicode_len();
    let mut out = String::new();
    let mut i: usize = 0;
    while i < n
        invariant
            n == t@.len(),
            i <= n,
            out@ == colon_time(t@.take(i as int)),
        decreases n - i,
    {
        let c = t.get_char(i);
        if c == '-' {
            append(&mut out, ":");
            proof { reveal_strlit(":"); }
        } else {
            let one = t.substring_char(i, i + 1);
            append(&mut out, one);
        }
        assert(colon_time(t@.take(i + 1)) =~= colon_time(t@.take(i as int)).push(if c == '-' { ':' } else { c }));
        assert(out@ =~= colon_time(t@.take(i + 1)));
        i += 1;
    }
    assert(t@.take(n as int) =~= t@);
    out
}

/// The wall-clock time a file name records, read as if it were UTC;
/// `None` when the name holds no VRChat time stamp.
pub fn wall_clock_from_file_name(name: &str) -> (r: Option<i64>)
    ensures
        match r {
            Some(v) => name_wall_clock(name@) == Some(v as int),
            None => name_wall_clock(name@).is_none(),
        },
{
    let (d, t) = match filename_stamp(name) {
        Some(p) => p,
        None => return None,
    };
    let mut text = owned(d.as_str());
    append(&mut text, " ");
    let ct = colon_time_text(t.as_str());
    append(&mut text, ct.as_str());
    naive_epoch(text.as_str())
}

/// The UTC instant of a wall-clock time: the earliest valid instant of that
/// time in the local zone when there is one, else the wall clock read as UTC.
pub fn resolve_local_time(wall_clock: i64, earliest_local: Option<i64>) -> (r: i64)
    ensures
        r == match earliest_local {
            Some(t) => t,
            None => wall_clock,
        },
{
    match earliest_local {
        Some(t) => t,
        None => wall_clock,
    }
}

} // verus!
