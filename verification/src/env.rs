//! The process configuration and the contact-times ledger format: one CSV
//! line per person, `guid,minutes`. Reading the environment and prompting
//! for missing values happen outside; this module holds the values and the
//! line format.
use crate::text::{chars_of, dec_chars_of, parse_u64, spec_parse_u64, split_on, split_ranges,
    u64_to_string};
use vstd::prelude::*;

verus! {

/// What the client needs to run: credentials, where to push scores, the
/// key the push is encrypted with, and the working directory.
#[derive(Clone, Debug)]
pub struct Env {
    pub church_username: String,
    pub church_password: String,
    pub timeline_send_url: String,
    pub timeline_send_crypt_key: String,
    pub working_path: String,
}

impl Env {
    pub fn new(
        church_username: String,
        church_password: String,
        timeline_send_url: String,
        timeline_send_crypt_key: String,
        working_path: String,
    ) -> (r: Env)
        ensures
            r.church_username == church_username,
            r.church_password == church_password,
            r.timeline_send_url == timeline_send_url,
            r.timeline_send_crypt_key == timeline_send_crypt_key,
            r.working_path == working_path,
    {
        Env {
            church_username,
            church_password,
            timeline_send_url,
            timeline_send_crypt_key,
            working_path,
        }
    }
}

/// What one ledger line holds: the text before the first comma as the
/// guid, and the second comma-separated field as the minutes — if there is
/// a second field and it parses. Other lines are skipped.
pub open spec fn spec_contact_line(s: Seq<char>) -> Option<(Seq<char>, u64)> {
    let parts = split_on(s, ',');
    if parts.len() < 2 {
        None
    } else {
        match spec_parse_u64(parts[1]) {
            Some(t) => Some((parts[0], t)),
            None => None,
        }
    }
}

/// Reads one `guid,minutes` ledger line; see `spec_contact_line`.
pub fn parse_contact_line(line: &str) -> (r: Option<(String, u64)>)
    ensures
        match r {
            Some(p) => spec_contact_line(line@) == Some((p.0@, p.1)),
            None => spec_contact_line(line@) == None::<(Seq<char>, u64)>,
        },
{
    let ranges = split_ranges(line, ',');
    if ranges.len() < 2 {
        return None;
    }
    let (a0, b0) = (ranges[0].0, ranges[0].1);
    let (a1, b1) = (ranges[1].0, ranges[1].1);
    proof {
        assert(ranges@[0].0 <= ranges@[0].1 <= line@.len());
        assert(ranges@[1].0 <= ranges@[1].1 <= line@.len());
    }
    let guid = line.substring_char(a0, b0);
    let field = line.substring_char(a1, b1);
    let field_chars = chars_of(field);
    proof {
        assert(guid@ == split_on(line@, ',')[0]);
        assert(field_chars@ == split_on(line@, ',')[1]);
    }
    match parse_u64(&field_chars) {
        Some(t) => Some((guid.to_owned(), t)),
        None => None,
    }
}

/// Prints one ledger line, `guid,minutes`, without the line break.
pub fn format_contact_line(guid: &str, minutes: u64) -> (r: String)
    ensures
        r@ == guid@ + ","@ + dec_chars_of(minutes as int),
{
    let mut s = guid.to_owned();
    s.append(",");
    let t = u64_to_string(minutes);
    s.append(t.as_str());
    s
}

} // verus!
