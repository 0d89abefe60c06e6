//! Provenance header: two generator lines (tool identity and a wall-clock
//! timestamp) prepended to a layer file. The content follows the header
//! unmodified; line-ending unification is a separate, explicitly invoked
//! step (`unify_newlines`), not part of header injection.
#![verifier::loop_isolation(false)]
use vstd::prelude::*;
use vstd::string::*;

use crate::styles::lit_vec;
use crate::text::{is_digit, replace_all, replace_all_bytes};

verus! {

/// `"\r\n"`.
pub open spec fn crlf() -> Seq<u8> {
    seq![('\r' as u8), ('\n' as u8)]
}

/// `"\n"`.
pub open spec fn lf() -> Seq<u8> {
    seq![('\n' as u8)]
}

/// The generator-identity line up to the timestamp.
pub open spec fn header_intro() -> Seq<u8> {
    "G04 EasyEDA Pro v2.2.42.2, ".spec_bytes()
}

/// The rest of the header: the close of the identity line and the
/// generator-version line.
pub open spec fn header_rest() -> Seq<u8> {
    "*\nG04 Gerber Generator version 0.3*\n".spec_bytes()
}

/// The header-injected document: both header lines with the timestamp
/// embedded, then the original content, unmodified.
pub open spec fn header_spec(ts: Seq<u8>, content: Seq<u8>) -> Seq<u8> {
    header_intro() + ts + header_rest() + content
}

/// The shape of a `"%Y-%m-%d %H:%M:%S"` timestamp: a year of at least four
/// bytes, each a digit or a sign, then `-MM-DD HH:MM:SS` with two-digit
/// zero-padded fields. Nineteen bytes for the years 1 through 9999.
pub open spec fn timestamp_shaped(ts: Seq<u8>) -> bool {
    let n = ts.len() as int;
    &&& n >= 19
    &&& forall|i: int|
        0 <= i < n - 15 ==> is_digit(#[trigger] ts[i]) || ts[i] == ('-' as u8) || ts[i] == (
        '+' as u8)
    &&& ts[n - 15] == ('-' as u8) && is_digit(ts[n - 14]) && is_digit(ts[n - 13])
    &&& ts[n - 12] == ('-' as u8) && is_digit(ts[n - 11]) && is_digit(ts[n - 10])
    &&& ts[n - 9] == (' ' as u8)
    &&& is_digit(ts[n - 8]) && is_digit(ts[n - 7]) && ts[n - 6] == (':' as u8)
    &&& is_digit(ts[n - 5]) && is_digit(ts[n - 4]) && ts[n - 3] == (':' as u8)
    &&& is_digit(ts[n - 2]) && is_digit(ts[n - 1])
}

/// A shaped timestamp holds no newline, so the header stays two lines.
pub proof fn lemma_timestamp_has_no_newline(ts: Seq<u8>)
    requires
        timestamp_shaped(ts),
    ensures
        forall|i: int| 0 <= i < ts.len() ==> #[trigger] ts[i] != ('\n' as u8),
{
}

/// `"\r\n"` as a byte vector.
fn crlf_vec() -> (r: Vec<u8>)
    ensures
        r@ == crlf(),
{
    let mut v: Vec<u8> = Vec::new();
    v.push('\r' as u8);
    v.push('\n' as u8);
    assert(v@ =~= crlf());
    v
}

/// `"\n"` as a byte vector.
fn lf_vec() -> (r: Vec<u8>)
    ensures
        r@ == lf(),
{
    let mut v: Vec<u8> = Vec::new();
    v.push('\n' as u8);
    assert(v@ =~= lf());
    v
}

/// Unify `"\r\n"` to `"\n"`, executable. An explicitly invoked option: the
/// default pipeline does not normalize line endings.
pub fn unify_newlines(content: &[u8]) -> (r: Vec<u8>)
    ensures
        r@ == replace_all(content@, crlf(), lf()),
{
    let pat = crlf_vec();
    let rep = lf_vec();
    replace_all_bytes(content, pat.as_slice(), rep.as_slice())
}

/// Prepend the two provenance header lines with the given timestamp text;
/// the content itself is kept byte for byte.
pub fn inject_header(content: &[u8], ts: &[u8]) -> (r: Vec<u8>)
    ensures
        r@ == header_spec(ts@, content@),
{
    let mut out = lit_vec("G04 EasyEDA Pro v2.2.42.2, ");
    out.extend_from_slice(ts);
    let mut rest = lit_vec("*\nG04 Gerber Generator version 0.3*\n");
    out.append(&mut rest);
    out.extend_from_slice(content);
    proof {
        assert(out@ =~= header_spec(ts@, content@));
    }
    out
}

/// Relies on `chrono::Local::now` and `DateTime::format` with
/// `"%Y-%m-%d %H:%M:%S"`: the current local wall-clock time as text. The
/// value depends on the clock, so only the documented shape is promised:
/// a year zero-padded to at least four digits (signed outside 1 BCE..9999 CE)
/// and two-digit zero-padded month, day, hour, minute and second fields with
/// fixed `-`, `-`, space, `:`, `:` separators.
#[verifier::external_body]
fn local_timestamp() -> (r: Vec<u8>)
    ensures
        timestamp_shaped(r@),
{
    chrono::Local::now().format("%Y-%m-%d %H:%M:%S").to_string().into_bytes()
}

/// Prepend the provenance header with the wall-clock timestamp of this call.
pub fn inject_header_now(content: &[u8]) -> (r: Vec<u8>)
    ensures
        exists|ts: Seq<u8>| timestamp_shaped(ts) && r@ == #[trigger] header_spec(ts, content@),
{
    let ts = local_timestamp();
    let r = inject_header(content, ts.as_slice());
    proof {
        assert(timestamp_shaped(ts@) && r@ == header_spec(ts@, content@));
    }
    r
}

} // verus!
