//! VRChat's XMP packet: the author and world properties, found by tolerant
//! matching of elements and attributes with or without a namespace prefix.
use vstd::prelude::*;
use crate::json::opt_view;
use crate::model::{AuthorInfo, ImageMetadata, WorldInfo};
use crate::text::{trim, trim_end_chars, trim_start_chars};

verus! {

/// The text of the first `<ns:Prop ...>text</ns:Prop>` element, by the regex
/// `<\w+:Prop[^>]*>([^<]*)</\w+:Prop>`.
pub uninterp spec fn ns_element_capture(content: Seq<char>, prop: Seq<char>) -> Option<Seq<char>>;

/// The text of the first `<Prop ...>text</Prop>` element, by the regex `<Prop[^>]*>([^<]*)</Prop>`.
pub uninterp spec fn element_capture(content: Seq<char>, prop: Seq<char>) -> Option<Seq<char>>;

/// The value of the first `Prop="value"` attribute not preceded by a letter, by
/// the regex `(?:^|[^a-zA-Z])Prop="([^"]*)"`.
pub uninterp spec fn attribute_capture(content: Seq<char>, prop: Seq<char>) -> Option<Seq<char>>;

/// The value of the first `ns:Prop="value"` attribute, by the regex `\w+:Prop="([^"]*)"`.
pub uninterp spec fn ns_attribute_capture(content: Seq<char>, prop: Seq<char>) -> Option<Seq<char>>;

/// Relies on `regex::escape`, `Regex::new` and `Regex::captures`: group 1 of the namespaced element pattern.
#[verifier::external_body]
fn ns_element_value(content: &str, prop: &str) -> (r: Option<String>)
    ensures
        opt_view(r) == ns_element_capture(content@, prop@),
{
    let p = regex::escape(prop);
    let re = regex::Regex::new(&format!(r"<\w+:{}[^>]*>([^<]*)</\w+:{}>", p, p)).ok()?;
    let caps = re.captures(content)?;
    Some(caps.get(1)?.as_str().to_string())
}

/// Relies on `regex::escape`, `Regex::new` and `Regex::captures`: group 1 of the element pattern.
#[verifier::external_body]
fn element_value(content: &str, prop: &str) -> (r: Option<String>)
    ensures
        opt_view(r) == element_capture(content@, prop@),
{
    let p = regex::escape(prop);
    let re = regex::Regex::new(&format!(r"<{}[^>]*>([^<]*)</{}>", p, p)).ok()?;
    let caps = re.captures(content)?;
    Some(caps.get(1)?.as_str().to_string())
}

/// Relies on `regex::escape`, `Regex::new` and `Regex::captures`: group 1 of the attribute pattern.
#[verifier::external_body]
fn attribute_value(content: &str, prop: &str) -> (r: Option<String>)
    ensures
        opt_view(r) == attribute_capture(content@, prop@),
{
    let re = regex::Regex::new(&format!(r#"(?:^|[^a-zA-Z]){}="([^"]*)""#, regex::escape(prop))).ok()?;
    let caps = re.captures(content)?;
    Some(caps.get(1)?.as_str().to_string())
}

/// Relies on `regex::escape`, `Regex::new` and `Regex::captures`: group 1 of the namespaced attribute pattern.
#[verifier::external_body]
fn ns_attribute_value(content: &str, prop: &str) -> (r: Option<String>)
    ensures
        opt_view(r) == ns_attribute_capture(content@, prop@),
{
    let re = regex::Regex::new(&format!(r#"\w+:{}="([^"]*)""#, regex::escape(prop))).ok()?;
    let caps = re.captures(content)?;
    Some(caps.get(1)?.as_str().to_string())
}

/// A captured element text, trimmed; empty counts as absent.
pub open spec fn present_trimmed(o: Option<Seq<char>>) -> Option<Seq<char>> {
    match o {
        Some(v) => {
            let t = trim_start_chars(trim_end_chars(v));
            if t.len() > 0 { Some(t) } else { None }
        },
        None => None,
    }
}

/// A captured attribute value; empty counts as absent.
pub open spec fn present(o: Option<Seq<char>>) -> Option<Seq<char>> {
    match o {
        Some(v) => if v.len() > 0 { Some(v) } else { None },
        None => None,
    }
}

/// The first of two options that is present.
pub open spec fn first_of(a: Option<Seq<char>>, b: Option<Seq<char>>) -> Option<Seq<char>> {
    if a.is_some() { a } else { b }
}

/// A property's value: a namespaced element, a plain element, an attribute,
/// a namespaced attribute, in that order.
pub open spec fn xmp_value(c: Seq<char>, p: Seq<char>) -> Option<Seq<char>> {
    first_of(
        present_trimmed(ns_element_capture(c, p)),
        first_of(
            present_trimmed(element_capture(c, p)),
            first_of(present(attribute_capture(c, p)), present(ns_attribute_capture(c, p))),
        ),
    )
}

fn keep_trimmed(o: Option<String>) -> (r: Option<String>)
    ensures
        opt_view(r) == present_trimmed(opt_view(o)),
{
    match o {
        Some(v) => {
            let t = trim(v.as_str());
            if t.as_str().is_empty() { None } else { Some(t) }
        },
        None => None,
    }
}

fn keep_present(o: Option<String>) -> (r: Option<String>)
    ensures
        opt_view(r) == present(opt_view(o)),
{
    match o {
        Some(v) => if v.as_str().is_empty() { None } else { Some(v) },
        None => None,
    }
}

/// The value of one XMP property, found by tolerant matching.
pub fn extract_xmp_value(content: &str, property: &str) -> (r: Option<String>)
    ensures
        opt_view(r) == xmp_value(content@, property@),
{
    let a = keep_trimmed(ns_element_value(content, property));
    if a.is_some() {
        return a;
    }
    let b = keep_trimmed(element_value(content, property));
    if b.is_some() {
        return b;
    }
    let c = keep_present(attribute_value(content, property));
    if c.is_some() {
        return c;
    }
    keep_present(ns_attribute_value(content, property))
}

/// The first property of four that has a value.
pub open spec fn first_value(c: Seq<char>, a: Seq<char>, b: Seq<char>, d: Seq<char>, e: Seq<char>) -> Option<Seq<char>> {
    first_of(xmp_value(c, a), first_of(xmp_value(c, b), first_of(xmp_value(c, d), xmp_value(c, e))))
}

fn first_value_exec(c: &str, a: &str, b: &str, d: &str, e: &str) -> (r: Option<String>)
    ensures
        opt_view(r) == first_value(c@, a@, b@, d@, e@),
{
    let x = extract_xmp_value(c, a);
    if x.is_some() {
        return x;
    }
    let y = extract_xmp_value(c, b);
    if y.is_some() {
        return y;
    }
    let z = extract_xmp_value(c, d);
    if z.is_some() {
        return z;
    }
    extract_xmp_value(c, e)
}

pub open spec fn author_name_of(c: Seq<char>) -> Option<Seq<char>> {
    first_value(c, "Author"@, "xmp:Author"@, "vrc:Author"@, "vrchat:Author"@)
}

pub open spec fn author_id_of(c: Seq<char>) -> Option<Seq<char>> {
    first_value(c, "AuthorID"@, "vrc:AuthorID"@, "XMP:AuthorID"@, "vrchat:AuthorID"@)
}

pub open spec fn world_id_of(c: Seq<char>) -> Option<Seq<char>> {
    first_value(c, "WorldID"@, "vrc:WorldID"@, "XMP:WorldID"@, "vrchat:WorldID"@)
}

pub open spec fn world_name_of(c: Seq<char>) -> Option<Seq<char>> {
    first_value(c, "WorldDisplayName"@, "vrc:WorldDisplayName"@, "XMP:WorldDisplayName"@, "vrchat:WorldDisplayName"@)
}

/// The text of an option, empty when absent.
pub open spec fn or_empty(o: Option<Seq<char>>) -> Seq<char> {
    match o {
        Some(v) => v,
        None => Seq::empty(),
    }
}

fn or_empty_exec(o: Option<String>) -> (r: String)
    ensures
        r@ == or_empty(opt_view(o)),
{
    match o {
        Some(v) => v,
        None => String::new(),
    }
}

/// Whether a packet yields any author or world property.
pub open spec fn xmp_found(c: Seq<char>) -> bool {
    author_name_of(c).is_some() || author_id_of(c).is_some() || world_id_of(c).is_some() || world_name_of(c).is_some()
}

/// Author and world from an XMP packet; never players. `None` when the
/// packet holds none of the four properties.
pub fn parse_vrchat_xmp(xmp_content: &str) -> (r: Option<ImageMetadata>)
    ensures
        r.is_some() == xmp_found(xmp_content@),
        r matches Some(m) ==> {
            let c = xmp_content@;
            &&& m.players@.len() == 0
            &&& m.author.is_some() == (author_name_of(c).is_some() || author_id_of(c).is_some())
            &&& m.author matches Some(a) ==> a.display_name@ == or_empty(author_name_of(c)) && a.id@ == or_empty(author_id_of(c))
            &&& m.world.is_some() == (world_id_of(c).is_some() || world_name_of(c).is_some())
            &&& m.world matches Some(w) ==> w.name@ == or_empty(world_name_of(c)) && w.id@ == or_empty(world_id_of(c))
                && w.instance_id@.len() == 0
        },
{
    let author_name = first_value_exec(xmp_content, "Author", "xmp:Author", "vrc:Author", "vrchat:Author");
    let author_id = first_value_exec(xmp_content, "AuthorID", "vrc:AuthorID", "XMP:AuthorID", "vrchat:AuthorID");
    let world_id = first_value_exec(xmp_content, "WorldID", "vrc:WorldID", "XMP:WorldID", "vrchat:WorldID");
    let world_name = first_value_exec(
        xmp_content,
        "WorldDisplayName",
        "vrc:WorldDisplayName",
        "XMP:WorldDisplayName",
        "vrchat:WorldDisplayName",
    );
    let has_author = author_id.is_some() || author_name.is_some();
    let has_world = world_id.is_some() || world_name.is_some();
    if !has_author && !has_world {
        return None;
    }
    let author = if has_author {
        Some(AuthorInfo { display_name: or_empty_exec(author_name), id: or_empty_exec(author_id) })
    } else {
        None
    };
    let world = if has_world {
        Some(WorldInfo { name: or_empty_exec(world_name), id: or_empty_exec(world_id), instance_id: String::new() })
    } else {
        None
    };
    Some(ImageMetadata { author, world, players: Vec::new() })
}

} // verus!
