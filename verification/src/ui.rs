use vstd::prelude::*;

use crate::domain::SecretMetadata;
use vstd::string::{StrSliceExecFns, StringExecFns};

verus! {

/// What lossy UTF-8 decoding makes of a byte sequence.
pub uninterp spec fn utf8_lossy_of(bytes: Seq<u8>) -> Seq<char>;

/// Relies on std's `String::from_utf8_lossy`: the result is a function of the
/// bytes alone, and empty input gives the empty string.
#[verifier::external_body]
fn lossy_string(bytes: &[u8]) -> (r: String)
    ensures
        r@ == utf8_lossy_of(bytes@),
        bytes@.len() == 0 ==> r@.len() == 0,
{
    String::from_utf8_lossy(bytes).into_owned()
}

/// What the RFC 3339 rendering of a UTC timestamp in milliseconds is, for
/// timestamps the calendar can represent.
pub uninterp spec fn rfc3339_of(millis: i64) -> Option<Seq<char>>;

/// Relies on chrono's `DateTime::from_timestamp_millis` and `to_rfc3339`: the
/// result is a function of the milliseconds alone, absent exactly for
/// timestamps out of the calendar's range.
#[verifier::external_body]
fn rfc3339_utc(millis: i64) -> (r: Option<String>)
    ensures
        match r {
            Some(s) => rfc3339_of(millis) == Some(s@),
            None => rfc3339_of(millis) is None,
        },
{
    chrono::DateTime::from_timestamp_millis(millis).map(|dt| dt.to_rfc3339())
}

/// How a plaintext is shown when not explicitly revealed: empty values say
/// so, values of up to three characters are fully hidden, and longer values
/// show their first and last two characters around a fixed mask.
pub open spec fn mask_spec(chars: Seq<char>) -> Seq<char> {
    if chars.len() == 0 {
        "(empty)"@
    } else if chars.len() <= 3 {
        "***"@
    } else {
        chars.take(2) + "***"@ + chars.skip(chars.len() - 2)
    }
}

/// Render a plaintext masked: decode it leniently as text, then hide all but
/// the first and last two characters.
pub fn mask(plaintext: &[u8]) -> (r: String)
    ensures
        r@ == mask_spec(utf8_lossy_of(plaintext@)),
        plaintext@.len() == 0 ==> r@ == "(empty)"@,
{
    let s = lossy_string(plaintext);
    let len = s.as_str().unicode_len();
    if len == 0 {
        return "(empty)".to_owned();
    }
    if len <= 3 {
        return "***".to_owned();
    }
    let head = s.as_str().substring_char(0, 2);
    let tail = s.as_str().substring_char(len - 2, len);
    let mut out = head.to_owned();
    out.append("***");
    out.append(tail);
    proof {
        assert(s@.subrange(0, 2) =~= s@.take(2));
        assert(s@.subrange(s@.len() - 2, s@.len() as int) =~= s@.skip(s@.len() - 2));
    }
    out
}

/// One row of the listing table, every cell already rendered as text.
pub struct SecretRow {
    pub name: String,
    pub kind: String,
    pub created_at: String,
    pub updated_at: String,
}

/// The rendering of a timestamp: its RFC 3339 form, or a fixed placeholder
/// for one the calendar cannot represent.
pub open spec fn time_text(millis: i64) -> Seq<char> {
    match rfc3339_of(millis) {
        Some(t) => t,
        None => "(out of range)"@,
    }
}

/// Render a timestamp for display.
fn render_time(millis: i64) -> (r: String)
    ensures
        r@ == time_text(millis),
{
    match rfc3339_utc(millis) {
        Some(t) => t,
        None => "(out of range)".to_owned(),
    }
}

/// Render one record's metadata as a table row: name, classification (empty
/// when absent) and both timestamps in RFC 3339.
pub fn secret_row(m: &SecretMetadata) -> (r: SecretRow)
    ensures
        r.name@ == m.name@,
        r.kind@ == (match m.kind.deep_view() {
            Some(k) => k,
            None => Seq::<char>::empty(),
        }),
        r.created_at@ == time_text(m.created_at),
        r.updated_at@ == time_text(m.updated_at),
{
    let kind = match &m.kind {
        Some(k) => k.clone(),
        None => String::new(),
    };
    SecretRow {
        name: m.name.clone(),
        kind,
        created_at: render_time(m.created_at),
        updated_at: render_time(m.updated_at),
    }
}

} // verus!
