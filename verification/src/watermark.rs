//! Watermark engine: parses the aperture-definition header window of a Gerber
//! text, renumbers apertures at or above a target number, derives a hash
//! suffix from the renumbered text, synthesizes a hash-encoded aperture
//! definition, and inserts it at a structurally valid point.
//!
//! The whole rewrite is specified line by line over `Seq<u8>`:
//! `watermark_spec` is the mathematical result, and the executable engine is
//! proved to return exactly it.
#![verifier::loop_isolation(false)]
use vstd::prelude::*;

use md5::Digest;

use crate::text::{
    all_free_of,
    bytes_match_at,
    copy_bytes,
    free_of,
    dec_str,
    dec_val,
    digit_run_at,
    digit_run_len,
    is_digit,
    is_digit_seq,
    join_lines,
    join_lines_bytes,
    lemma_dec_val_upper,
    lemma_run_props,
    split_lines,
    split_lines_bytes,
    starts_with,
    u32_to_dec,
};

verus! {

/// Largest aperture number the engine will assign.
pub open spec fn number_max() -> int {
    9999
}

/// Content longer than this many bytes is returned unchanged.
pub open spec fn size_limit() -> int {
    30000000
}

/// `"%ADD"`, the aperture-define directive prefix.
pub open spec fn tok_add() -> Seq<u8> {
    seq![('%' as u8), ('A' as u8), ('D' as u8), ('D' as u8)]
}

/// `"G54D"`, the legacy aperture-select directive prefix.
pub open spec fn tok_g54d() -> Seq<u8> {
    seq![('G' as u8), ('5' as u8), ('4' as u8), ('D' as u8)]
}

/// `"%AD"`.
pub open spec fn tok_ad() -> Seq<u8> {
    seq![('%' as u8), ('A' as u8), ('D' as u8)]
}

/// `"%AM"`, the aperture-macro directive prefix.
pub open spec fn tok_am() -> Seq<u8> {
    seq![('%' as u8), ('A' as u8), ('M' as u8)]
}

/// `"%MO"`, the units/mode directive prefix.
pub open spec fn tok_mo() -> Seq<u8> {
    seq![('%' as u8), ('M' as u8), ('O' as u8)]
}

/// `"%LP"`, the layer-polarity directive prefix.
pub open spec fn tok_lp() -> Seq<u8> {
    seq![('%' as u8), ('L' as u8), ('P' as u8)]
}

/// `"494d"`, the marker prepended to the hash input of imported documents.
pub open spec fn tok_import_marker() -> Seq<u8> {
    seq![('4' as u8), ('9' as u8), ('4' as u8), ('d' as u8)]
}

/// `"0.0100"`, the fallback size used when the candidate parses to zero.
pub open spec fn tok_fallback_size() -> Seq<u8> {
    seq![('0' as u8), ('.' as u8), ('0' as u8), ('1' as u8), ('0' as u8), ('0' as u8)]
}

/// The line begins an aperture-define or aperture-macro directive.
pub open spec fn is_ad_or_am(l: Seq<u8>) -> bool {
    starts_with(l, tok_ad()) || starts_with(l, tok_am())
}

/// The line is an aperture-define directive: `"%ADD"`, then two to four
/// decimal digits, then at least one more byte that is not a digit.
pub open spec fn is_ad_define(l: Seq<u8>) -> bool {
    &&& starts_with(l, tok_add())
    &&& 2 <= digit_run_len(l, 4) <= 4
    &&& l.len() > 4 + digit_run_len(l, 4)
}

/// The aperture number of an aperture-define directive.
pub open spec fn ad_define_num(l: Seq<u8>) -> int {
    dec_val(l.subrange(4, 4 + digit_run_len(l, 4)))
}

/// Header scan: the aperture-define lines collected from the top of the file.
/// The scan stops at the first non-aperture line after one define was found,
/// and past line 200 at the first line that is no aperture directive at all or
/// past line `200 + 2 * number_max()`.
pub open spec fn scan_defs(lines: Seq<Seq<u8>>, i: int, found: bool) -> Seq<Seq<u8>>
    decreases lines.len() - i,
{
    if i < 0 || i >= lines.len() {
        Seq::<Seq<u8>>::empty()
    } else {
        let l = lines[i];
        if i > 200 && (!is_ad_or_am(l) || i > 200 + 2 * number_max()) {
            Seq::<Seq<u8>>::empty()
        } else if is_ad_define(l) {
            seq![l] + scan_defs(lines, i + 1, true)
        } else if found {
            Seq::<Seq<u8>>::empty()
        } else {
            scan_defs(lines, i + 1, found)
        }
    }
}

/// Index of the aperture chosen as reference, given the random draw.
pub open spec fn sel_index(n: int, draw: int) -> int {
    let cap = if n > 1 {
        n - 1
    } else {
        0
    };
    if 5 + draw <= cap {
        5 + draw
    } else {
        cap
    }
}

/// Number of apertures treated as eligible.
pub open spec fn sel_count(n: int, draw: int) -> int {
    if n <= 5 {
        n
    } else {
        sel_index(n, draw)
    }
}

/// The reference aperture definition, if one is selected.
pub open spec fn reference_def(defs: Seq<Seq<u8>>, draw: int) -> Option<Seq<u8>> {
    let n = defs.len() as int;
    if sel_count(n, draw) > 0 && sel_index(n, draw) < n {
        Some(defs[sel_index(n, draw)])
    } else {
        None
    }
}

/// The target aperture number: the reference's number when a reference
/// exists, otherwise a capped default (10 with no or many apertures, last
/// found number plus one with at most five).
pub open spec fn target_num(defs: Seq<Seq<u8>>, draw: int) -> int {
    let n = defs.len() as int;
    if sel_count(n, draw) > 0 && sel_index(n, draw) < n {
        ad_define_num(defs[sel_index(n, draw)])
    } else {
        let d = if n == 0 {
            10
        } else if n <= 5 {
            ad_define_num(defs[n - 1]) + 1
        } else {
            10
        };
        if d <= number_max() {
            d
        } else {
            number_max()
        }
    }
}

/// Length of the numeric field a renumbering match uses: the digit run after
/// the four-byte prefix, truncated to four digits.
pub open spec fn renum_match_len(l: Seq<u8>) -> int {
    let r = digit_run_len(l, 4);
    if r > 4 {
        4
    } else {
        r
    }
}

/// The line is renumbered when it starts with `"%ADD"` or `"G54D"` followed
/// by at least two decimal digits.
pub open spec fn is_renum_match(l: Seq<u8>) -> bool {
    (starts_with(l, tok_add()) || starts_with(l, tok_g54d())) && renum_match_len(l) >= 2
}

/// The numeric field of a renumbering match.
pub open spec fn renum_num(l: Seq<u8>) -> int {
    dec_val(l.subrange(4, 4 + renum_match_len(l)))
}

/// Renumbering of one line: a matching directive whose number is at least
/// `target` and not `number_max()` has its numeric field replaced by the
/// canonical rendering of the number plus one; all else is untouched.
pub open spec fn renum_line(l: Seq<u8>, target: int) -> Seq<u8> {
    if is_renum_match(l) {
        let num = renum_num(l);
        if num < target || num == number_max() {
            l
        } else {
            l.subrange(0, 4) + dec_str(num + 1) + l.skip(4 + renum_match_len(l))
        }
    } else {
        l
    }
}

/// The renumbering pass over the whole document.
pub open spec fn renum_lines(lines: Seq<Seq<u8>>, target: int) -> Seq<Seq<u8>> {
    lines.map_values(|l: Seq<u8>| renum_line(l, target))
}

/// The 16-byte MD5 digest of a byte string. Computed only by the trusted
/// `md5_digest` wrapper; a function of the input alone.
pub uninterp spec fn md5_of(bytes: Seq<u8>) -> Seq<u8>;

/// The bytes that are hashed: the renumbered text, with the import marker
/// prepended when the document originates from an import path.
pub open spec fn hash_input(renumbered: Seq<u8>, imported: bool) -> Seq<u8> {
    if imported {
        tok_import_marker() + renumbered
    } else {
        renumbered
    }
}

/// The two-digit hash suffix: the last byte of the digest, reduced modulo 100.
/// (The last two characters of the lowercase hex rendering of the digest are
/// exactly the hex of its last byte.)
pub open spec fn hash_suffix(renumbered: Seq<u8>, imported: bool) -> int {
    (md5_of(hash_input(renumbered, imported))[15] as int) % 100
}

/// Two-digit zero-padded decimal rendering of `v` (`0 <= v < 100`).
pub open spec fn two_digits(v: int) -> Seq<u8> {
    seq![((('0' as u8) + v / 10) as u8), ((('0' as u8) + v % 10) as u8)]
}

/// The random base size, two decimal places: `"0.cc"`, or `"1.00"` at the cap.
pub open spec fn size_base(cc: int) -> Seq<u8> {
    if cc >= 100 {
        seq![('1' as u8), ('.' as u8), ('0' as u8), ('0' as u8)]
    } else {
        seq![('0' as u8), ('.' as u8)] + two_digits(cc)
    }
}

/// The candidate size: hash suffix appended textually to the base size; the
/// fallback replaces a candidate that would parse to numeric zero.
pub open spec fn final_size(cc: int, suffix: int) -> Seq<u8> {
    if cc == 0 && suffix == 0 {
        tok_fallback_size()
    } else {
        size_base(cc) + two_digits(suffix)
    }
}

/// A byte that may appear in a numeric size field: a digit or `'.'`.
pub open spec fn is_size_char(b: u8) -> bool {
    is_digit(b) || b == ('.' as u8)
}

/// Length of the maximal run of size characters starting at `i`.
pub open spec fn size_run_len(l: Seq<u8>, i: int) -> int
    decreases l.len() - i,
{
    if i < 0 || i >= l.len() || !is_size_char(l[i]) {
        0
    } else {
        1 + size_run_len(l, i + 1)
    }
}

/// First position of a `','` directly followed by a size character (-1 if none).
pub open spec fn find_size_pos(l: Seq<u8>, i: int) -> int
    decreases l.len() - i,
{
    if i < 0 || i >= l.len() {
        -1
    } else if l[i] == (',' as u8) && i + 1 < l.len() && is_size_char(l[i + 1]) {
        i
    } else {
        find_size_pos(l, i + 1)
    }
}

/// Replace the first size field after a comma by `size` (the line unchanged
/// if it has no such field).
pub open spec fn subst_size(l: Seq<u8>, size: Seq<u8>) -> Seq<u8> {
    let p = find_size_pos(l, 0);
    if p >= 0 {
        l.subrange(0, p + 1) + size + l.skip(p + 1 + size_run_len(l, p + 1))
    } else {
        l
    }
}

/// The synthesized hash aperture: the reference with its size field replaced,
/// or a minimal circular aperture `"%ADD<target>C,<size>*%"`.
pub open spec fn synth_aperture(refr: Option<Seq<u8>>, target: int, size: Seq<u8>) -> Seq<u8> {
    match refr {
        Some(l) => subst_size(l, size),
        None => tok_add() + dec_str(target) + seq![('C' as u8), (',' as u8)] + size + seq![
            ('*' as u8),
            ('%' as u8),
        ],
    }
}

/// The line defines aperture `target + 1`: the pattern followed by a non-digit.
pub open spec fn is_next_ap_line(l: Seq<u8>, pat: Seq<u8>) -> bool {
    starts_with(l, pat) && l.len() > pat.len() && !is_digit(l[pat.len() as int])
}

/// First line at or after `i` that defines aperture `target + 1` (-1 if none).
pub open spec fn find_next_ap(lines: Seq<Seq<u8>>, pat: Seq<u8>, i: int) -> int
    decreases lines.len() - i,
{
    if i < 0 || i >= lines.len() {
        -1
    } else if is_next_ap_line(lines[i], pat) {
        i
    } else {
        find_next_ap(lines, pat, i + 1)
    }
}

/// First line at or after `i` that starts with `p` (-1 if none).
pub open spec fn find_prefix_line(lines: Seq<Seq<u8>>, p: Seq<u8>, i: int) -> int
    decreases lines.len() - i,
{
    if i < 0 || i >= lines.len() {
        -1
    } else if starts_with(lines[i], p) {
        i
    } else {
        find_prefix_line(lines, p, i + 1)
    }
}

/// First line at or after `i` that starts with `"%LP"` or `"G"` (-1 if none).
pub open spec fn find_lp_or_g(lines: Seq<Seq<u8>>, i: int) -> int
    decreases lines.len() - i,
{
    if i < 0 || i >= lines.len() {
        -1
    } else if starts_with(lines[i], tok_lp()) || starts_with(lines[i], seq![('G' as u8)]) {
        i
    } else {
        find_lp_or_g(lines, i + 1)
    }
}

/// A found next-aperture line lies within the document.
pub proof fn lemma_find_next_ap_range(lines: Seq<Seq<u8>>, pat: Seq<u8>, i: int)
    requires
        0 <= i,
    ensures
        find_next_ap(lines, pat, i) == -1 || i <= find_next_ap(lines, pat, i) < lines.len(),
    decreases lines.len() - i,
{
    if i < lines.len() && !is_next_ap_line(lines[i], pat) {
        lemma_find_next_ap_range(lines, pat, i + 1);
    }
}

/// A found prefix line lies within the document.
pub proof fn lemma_find_prefix_range(lines: Seq<Seq<u8>>, p: Seq<u8>, i: int)
    requires
        0 <= i,
    ensures
        find_prefix_line(lines, p, i) == -1 || i <= find_prefix_line(lines, p, i) < lines.len(),
    decreases lines.len() - i,
{
    if i < lines.len() && !starts_with(lines[i], p) {
        lemma_find_prefix_range(lines, p, i + 1);
    }
}

/// A found layer-polarity or graphics line lies within the document.
pub proof fn lemma_find_lp_or_g_range(lines: Seq<Seq<u8>>, i: int)
    requires
        0 <= i,
    ensures
        find_lp_or_g(lines, i) == -1 || i <= find_lp_or_g(lines, i) < lines.len(),
    decreases lines.len() - i,
{
    if i < lines.len() && !(starts_with(lines[i], tok_lp()) || starts_with(
        lines[i],
        seq![('G' as u8)],
    )) {
        lemma_find_lp_or_g_range(lines, i + 1);
    }
}

/// Insertion point: before the first directive defining `target + 1`; else,
/// after the first units/mode directive, before the first following
/// layer-polarity or graphics-command line; else at the end.
pub open spec fn insert_aperture(lines: Seq<Seq<u8>>, target: int, hap: Seq<u8>) -> Seq<Seq<u8>> {
    let k = find_next_ap(lines, tok_add() + dec_str(target + 1), 0);
    if k >= 0 {
        lines.insert(k, hap)
    } else {
        let m = find_prefix_line(lines, tok_mo(), 0);
        if m >= 0 {
            let j = find_lp_or_g(lines, m + 1);
            if j >= 0 {
                lines.insert(j, hap)
            } else {
                lines.push(hap)
            }
        } else {
            lines.push(hap)
        }
    }
}

/// An aperture-define directive carries a number between 0 and the cap.
pub proof fn lemma_ad_define_num_bounds(l: Seq<u8>)
    requires
        is_ad_define(l),
    ensures
        0 <= ad_define_num(l) <= number_max(),
{
    lemma_run_props(l, 4);
    let run = l.subrange(4, 4 + digit_run_len(l, 4));
    assert(is_digit_seq(run));
    crate::text::lemma_dec_val_upper(run);
}

/// Every line the header scan collects is an aperture-define line of the
/// document.
pub proof fn lemma_scan_defs_sound(lines: Seq<Seq<u8>>, i: int, found: bool)
    ensures
        forall|k: int|
            0 <= k < scan_defs(lines, i, found).len() ==> is_ad_define(
                #[trigger] scan_defs(lines, i, found)[k],
            ) && (exists|j: int| 0 <= j < lines.len() && lines[j] == scan_defs(lines, i, found)[k]),
    decreases lines.len() - i,
{
    if 0 <= i < lines.len() {
        lemma_scan_defs_sound(lines, i + 1, true);
        lemma_scan_defs_sound(lines, i + 1, found);
        let cur = scan_defs(lines, i, found);
        let l = lines[i];
        assert forall|k: int| 0 <= k < cur.len() implies is_ad_define(#[trigger] cur[k]) && (
        exists|j: int| 0 <= j < lines.len() && lines[j] == cur[k]) by {
            if i > 200 && (!is_ad_or_am(l) || i > 200 + 2 * number_max()) {
                assert(cur.len() == 0);
            } else if is_ad_define(l) {
                let rest = scan_defs(lines, i + 1, true);
                if k == 0 {
                    assert(cur[0] == l);
                    assert(0 <= i < lines.len() && lines[i] == cur[0]);
                } else {
                    assert(cur[k] == rest[k - 1]);
                    assert(is_ad_define(rest[k - 1]));
                    assert(exists|j: int| 0 <= j < lines.len() && lines[j] == rest[k - 1]);
                }
            } else if found {
                assert(cur.len() == 0);
            } else {
                assert(cur[k] == scan_defs(lines, i + 1, found)[k]);
                assert(is_ad_define(scan_defs(lines, i + 1, found)[k]));
            }
        }
    }
}

/// The target number lies between 0 and the cap (for a non-negative draw).
pub proof fn lemma_target_num_bounds(lines: Seq<Seq<u8>>, draw: int)
    requires
        0 <= draw,
    ensures
        0 <= target_num(scan_defs(lines, 0, false), draw) <= number_max(),
{
    let defs = scan_defs(lines, 0, false);
    lemma_scan_defs_sound(lines, 0, false);
    let n = defs.len() as int;
    if sel_count(n, draw) > 0 && sel_index(n, draw) < n {
        lemma_ad_define_num_bounds(defs[sel_index(n, draw)]);
    } else if n >= 1 && n <= 5 {
        lemma_ad_define_num_bounds(defs[n - 1]);
    }
}

/// Renumbering preserves newline-freeness of a line.
pub proof fn lemma_renum_line_free(l: Seq<u8>, target: int)
    requires
        free_of(l, ('\n' as u8)),
    ensures
        free_of(renum_line(l, target), ('\n' as u8)),
{
    let nl = '\n' as u8;
    if is_renum_match(l) && !(renum_num(l) < target || renum_num(l) == number_max()) {
        let m = renum_match_len(l);
        lemma_run_props(l, 4);
        let run = l.subrange(4, 4 + m);
        assert(is_digit_seq(run)) by {
            assert(forall|i: int| 0 <= i < m ==> #[trigger] run[i] == l[4 + i]);
        }
        crate::text::lemma_dec_val_upper(run);
        let num = renum_num(l);
        let ds = dec_str(num + 1);
        crate::text::lemma_dec_str_digits(num + 1);
        assert(free_of(ds, nl)) by {
            assert(forall|i: int| 0 <= i < ds.len() ==> is_digit(#[trigger] ds[i]));
        }
        crate::text::lemma_free_subrange(l, nl, 0, 4);
        crate::text::lemma_free_subrange(l, nl, 4 + m, l.len() as int);
        assert(l.skip(4 + m) =~= l.subrange(4 + m, l.len() as int));
        crate::text::lemma_free_concat(l.subrange(0, 4), ds, nl);
        crate::text::lemma_free_concat(l.subrange(0, 4) + ds, l.skip(4 + m), nl);
    }
}

/// The renumbering pass preserves newline-freeness of every line.
pub proof fn lemma_renum_lines_free(lines: Seq<Seq<u8>>, target: int)
    requires
        all_free_of(lines, ('\n' as u8)),
    ensures
        all_free_of(renum_lines(lines, target), ('\n' as u8)),
{
    let nl = '\n' as u8;
    let rl = renum_lines(lines, target);
    assert forall|k: int| 0 <= k < rl.len() implies free_of(#[trigger] rl[k], nl) by {
        assert(rl[k] == renum_line(lines[k], target));
        lemma_renum_line_free(lines[k], target);
    }
}

/// Two zero-padded digits are newline-free.
proof fn lemma_two_digits_free(v: int)
    requires
        0 <= v < 100,
    ensures
        free_of(two_digits(v), ('\n' as u8)),
{
    let w = two_digits(v);
    assert(is_digit(w[0]) && is_digit(w[1]));
    assert forall|i: int| 0 <= i < w.len() implies w[i] != ('\n' as u8) by {
        assert(w[i] == (if i == 0 {
            w[0]
        } else {
            w[1]
        }));
    }
}

/// The candidate size string is newline-free.
pub proof fn lemma_final_size_free(cc: int, suffix: int)
    requires
        0 <= cc <= 100,
        0 <= suffix < 100,
    ensures
        free_of(final_size(cc, suffix), ('\n' as u8)),
{
    let nl = '\n' as u8;
    if cc == 0 && suffix == 0 {
    } else {
        lemma_two_digits_free(suffix);
        if cc >= 100 {
        } else {
            lemma_two_digits_free(cc);
            crate::text::lemma_free_concat(seq![('0' as u8), ('.' as u8)], two_digits(cc), nl);
        }
        crate::text::lemma_free_concat(size_base(cc), two_digits(suffix), nl);
    }
}

/// The synthesized hash aperture is newline-free.
pub proof fn lemma_synth_free(refr: Option<Seq<u8>>, target: int, size: Seq<u8>)
    requires
        0 <= target,
        free_of(size, ('\n' as u8)),
        refr matches Some(l) ==> free_of(l, ('\n' as u8)),
    ensures
        free_of(synth_aperture(refr, target, size), ('\n' as u8)),
{
    let nl = '\n' as u8;
    match refr {
        Some(l) => {
            let p = find_size_pos(l, 0);
            if p >= 0 {
                lemma_find_size_props(l, 0);
                let run = size_run_len(l, p + 1);
                lemma_size_run_bound(l, p + 1);
                crate::text::lemma_free_subrange(l, nl, 0, p + 1);
                crate::text::lemma_free_subrange(l, nl, p + 1 + run, l.len() as int);
                assert(l.skip(p + 1 + run) =~= l.subrange(p + 1 + run, l.len() as int));
                crate::text::lemma_free_concat(l.subrange(0, p + 1), size, nl);
                crate::text::lemma_free_concat(l.subrange(0, p + 1) + size, l.skip(p + 1 + run), nl);
            }
        },
        None => {
            crate::text::lemma_dec_str_digits(target);
            let ds = dec_str(target);
            assert(free_of(ds, nl)) by {
                assert(forall|i: int| 0 <= i < ds.len() ==> is_digit(#[trigger] ds[i]));
            }
            crate::text::lemma_free_concat(tok_add(), ds, nl);
            crate::text::lemma_free_concat(tok_add() + ds, seq![('C' as u8), (',' as u8)], nl);
            crate::text::lemma_free_concat(tok_add() + ds + seq![('C' as u8), (',' as u8)], size, nl);
            crate::text::lemma_free_concat(
                tok_add() + ds + seq![('C' as u8), (',' as u8)] + size,
                seq![('*' as u8), ('%' as u8)],
                nl,
            );
        },
    }
}

/// A found size position lies within the line.
proof fn lemma_find_size_props(l: Seq<u8>, i: int)
    requires
        0 <= i,
    ensures
        find_size_pos(l, i) == -1 || i <= find_size_pos(l, i) < l.len(),
    decreases l.len() - i,
{
    if 0 <= i < l.len() && !(l[i] == (',' as u8) && i + 1 < l.len() && is_size_char(l[i + 1])) {
        lemma_find_size_props(l, i + 1);
    }
}

/// A size run stays within the line.
proof fn lemma_size_run_bound(l: Seq<u8>, i: int)
    requires
        0 <= i <= l.len(),
    ensures
        0 <= size_run_len(l, i),
        i + size_run_len(l, i) <= l.len(),
    decreases l.len() - i,
{
    if i < l.len() && is_size_char(l[i]) {
        lemma_size_run_bound(l, i + 1);
    }
}

/// Inserting a newline-free aperture into newline-free lines keeps every
/// line newline-free.
pub proof fn lemma_insert_free(lines: Seq<Seq<u8>>, target: int, hap: Seq<u8>)
    requires
        all_free_of(lines, ('\n' as u8)),
        free_of(hap, ('\n' as u8)),
    ensures
        all_free_of(insert_aperture(lines, target, hap), ('\n' as u8)),
{
    let nl = '\n' as u8;
    let out = insert_aperture(lines, target, hap);
    let pat = tok_add() + dec_str(target + 1);
    lemma_find_next_ap_range(lines, pat, 0);
    lemma_find_prefix_range(lines, tok_mo(), 0);
    let m = find_prefix_line(lines, tok_mo(), 0);
    if m >= 0 {
        lemma_find_lp_or_g_range(lines, m + 1);
    }
    assert forall|k: int| 0 <= k < out.len() implies free_of(#[trigger] out[k], nl) by {
        let ka = find_next_ap(lines, pat, 0);
        if ka >= 0 {
            assert(out == lines.insert(ka, hap));
            if k < ka {
                assert(out[k] == lines[k]);
            } else if k == ka {
                assert(out[k] == hap);
            } else {
                assert(out[k] == lines[k - 1]);
            }
        } else if m >= 0 && find_lp_or_g(lines, m + 1) >= 0 {
            let j = find_lp_or_g(lines, m + 1);
            assert(out == lines.insert(j, hap));
            if k < j {
                assert(out[k] == lines[k]);
            } else if k == j {
                assert(out[k] == hap);
            } else {
                assert(out[k] == lines[k - 1]);
            }
        } else {
            assert(out == lines.push(hap));
            if k < lines.len() {
                assert(out[k] == lines[k]);
            } else {
                assert(out[k] == hap);
            }
        }
    }
}

/// The watermarked document, line by line.
pub open spec fn watermark_lines(lines: Seq<Seq<u8>>, imported: bool, draw: int, cc: int) -> Seq<
    Seq<u8>,
> {
    let defs = scan_defs(lines, 0, false);
    let target = target_num(defs, draw);
    let rlines = renum_lines(lines, target);
    let suffix = hash_suffix(join_lines(rlines), imported);
    let hap = synth_aperture(reference_def(defs, draw), target, final_size(cc, suffix));
    insert_aperture(rlines, target, hap)
}

/// The full watermark step on raw content. Content is returned unchanged when
/// hashing is suppressed or the content exceeds `size_limit()` bytes.
pub open spec fn watermark_spec(
    c: Seq<u8>,
    ignore: bool,
    imported: bool,
    draw: int,
    cc: int,
) -> Seq<u8> {
    if ignore || c.len() > size_limit() {
        c
    } else {
        join_lines(watermark_lines(split_lines(c), imported, draw, cc))
    }
}

/// Relies on `md5::Md5::digest` of the md-5 crate: the 16-byte MD5 digest of
/// the input bytes, a function of the input alone.
#[verifier::external_body]
fn md5_digest(bytes: &[u8]) -> (r: Vec<u8>)
    ensures
        r@ == md5_of(bytes@),
        r@.len() == 16,
{
    md5::Md5::digest(bytes).to_vec()
}

/// Relies on `rand::random_range` on a half-open integer range: a value
/// uniform in `[0, hi)`; it panics only on an empty range, which the
/// precondition excludes.
#[verifier::external_body]
pub(crate) fn rand_below(hi: u32) -> (r: u32)
    requires
        0 < hi,
    ensures
        r < hi,
{
    rand::random_range(0..hi)
}

/// `"%ADD"` as a byte vector.
fn tok_add_vec() -> (r: Vec<u8>)
    ensures
        r@ == tok_add(),
{
    let mut v: Vec<u8> = Vec::new();
    v.push('%' as u8);
    v.push('A' as u8);
    v.push('D' as u8);
    v.push('D' as u8);
    assert(v@ =~= tok_add());
    v
}

/// `"G54D"` as a byte vector.
fn tok_g54d_vec() -> (r: Vec<u8>)
    ensures
        r@ == tok_g54d(),
{
    let mut v: Vec<u8> = Vec::new();
    v.push('G' as u8);
    v.push('5' as u8);
    v.push('4' as u8);
    v.push('D' as u8);
    assert(v@ =~= tok_g54d());
    v
}

/// A three-byte token as a vector.
fn tok3(a: u8, b: u8, c: u8) -> (r: Vec<u8>)
    ensures
        r@ == seq![a, b, c],
{
    let mut v: Vec<u8> = Vec::new();
    v.push(a);
    v.push(b);
    v.push(c);
    assert(v@ =~= seq![a, b, c]);
    v
}

/// Prefix test against a spec-level pattern.
pub fn has_prefix(s: &[u8], p: &[u8]) -> (r: bool)
    ensures
        r == starts_with(s@, p@),
{
    let r = bytes_match_at(s, p, 0);
    proof {
        if crate::text::matches_at(s@, p@, 0) {
            assert(forall|j: int| 0 <= j < p@.len() ==> s@[j] == #[trigger] p@[j]) by {
                assert(forall|j: int| 0 <= j < p@.len() ==> s@[0 + j] == #[trigger] p@[j]);
            }
        }
        if starts_with(s@, p@) {
            assert(forall|j: int| 0 <= j < p@.len() ==> s@[0 + j] == #[trigger] p@[j]);
        }
    }
    r
}

/// Parse the value of `k` digits of `l` starting at `from`.
fn parse_run_val(l: &[u8], from: usize, k: usize) -> (r: u32)
    requires
        from + k <= l@.len(),
        k <= 4,
        forall|j: int| from <= j < from + k ==> is_digit(#[trigger] l@[j]),
    ensures
        r as int == dec_val(l@.subrange(from as int, from as int + k as int)),
        r <= 9999,
{
    let mut r: u32 = 0;
    let mut j: usize = 0;
    let llen: usize = l.len();
    proof {
        assert(l@.len() == llen as int);
        assert(l@.subrange(from as int, from as int) =~= Seq::<u8>::empty());
    }
    while j < k
        invariant
            0 <= j <= k,
            r as int == dec_val(l@.subrange(from as int, from as int + j as int)),
            r < 10000,
        decreases k - j,
    {
        let ghost pre = l@.subrange(from as int, from as int + j as int);
        let ghost post = l@.subrange(from as int, from as int + j as int + 1);
        proof {
            assert(is_digit_seq(pre));
            lemma_dec_val_upper(pre);
            assert(post.drop_last() =~= pre);
            assert(post.last() == l@[from + j]);
        }
        r = r * 10 + ((l[from + j] - ('0' as u8)) as u32);
        j = j + 1;
    }
    proof {
        let whole = l@.subrange(from as int, from as int + k as int);
        assert(is_digit_seq(whole));
        lemma_dec_val_upper(whole);
    }
    r
}

/// Recognize an aperture-define directive and parse its number.
fn ad_define_parse(l: &[u8]) -> (r: Option<u32>)
    ensures
        match r {
            Some(n) => is_ad_define(l@) && n as int == ad_define_num(l@) && n <= 9999,
            None => !is_ad_define(l@),
        },
{
    let pfx = tok_add_vec();
    if !has_prefix(l, pfx.as_slice()) {
        return None;
    }
    let run = digit_run_at(l, 4);
    proof {
        lemma_run_props(l@, 4);
    }
    if run < 2 || run > 4 {
        return None;
    }
    if l.len() <= 4 + run {
        return None;
    }
    let n = parse_run_val(l, 4, run);
    proof {
        lemma_dec_val_upper(l@.subrange(4, 4 + run as int));
    }
    Some(n)
}

/// Header scan, executable: the aperture-define lines and their numbers.
fn scan_aperture_defs(lines: &Vec<Vec<u8>>) -> (r: (Vec<Vec<u8>>, Vec<u32>))
    ensures
        r.0.deep_view() == scan_defs(lines.deep_view(), 0, false),
        r.1@.len() == r.0.deep_view().len(),
        forall|k: int|
            0 <= k < r.1@.len() ==> (#[trigger] r.1@[k]) as int == ad_define_num(
                r.0.deep_view()[k],
            ) && r.1@[k] <= 9999,
    decreases lines.len(),
{
    let ghost gl = lines.deep_view();
    let tok_ad3 = tok3('%' as u8, 'A' as u8, 'D' as u8);
    let tok_am3 = tok3('%' as u8, 'A' as u8, 'M' as u8);
    let mut defs: Vec<Vec<u8>> = Vec::new();
    let mut nums: Vec<u32> = Vec::new();
    let mut found: bool = false;
    let mut done: bool = false;
    let mut i: usize = 0;
    proof {
        assert(defs.deep_view() =~~= Seq::<Seq<u8>>::empty());
    }
    while i < lines.len() && !done
        invariant
            0 <= i <= gl.len(),
            defs.deep_view().len() == nums@.len(),
            forall|k: int|
                0 <= k < nums@.len() ==> (#[trigger] nums@[k]) as int == ad_define_num(
                    defs.deep_view()[k],
                ) && nums@[k] <= 9999,
            scan_defs(gl, 0, false) =~~= defs.deep_view() + (if done {
                Seq::<Seq<u8>>::empty()
            } else {
                scan_defs(gl, i as int, found)
            }),
        decreases gl.len() - i, (if done {
            0int
        } else {
            1int
        }),
    {
        let l = &lines[i];
        proof {
            assert(l@ =~= gl[i as int]);
        }
        let ad_or_am = has_prefix(l.as_slice(), tok_ad3.as_slice()) || has_prefix(
            l.as_slice(),
            tok_am3.as_slice(),
        );
        if i > 200 && (!ad_or_am || i > 200 + 2 * 9999) {
            done = true;
            proof {
                assert(scan_defs(gl, i as int, found) =~~= Seq::<Seq<u8>>::empty());
            }
        } else {
            let parsed = ad_define_parse(l.as_slice());
            match parsed {
                Some(n) => {
                    proof {
                        assert(scan_defs(gl, i as int, found) =~~= seq![gl[i as int]] + scan_defs(
                            gl,
                            i + 1,
                            true,
                        ));
                    }
                    let ghost od = defs.deep_view();
                    let lc = copy_bytes(l.as_slice());
                    defs.push(lc);
                    nums.push(n);
                    proof {
                        assert(defs.deep_view() =~~= od.push(gl[i as int]));
                        assert(od + (seq![gl[i as int]] + scan_defs(gl, i + 1, true))
                            =~~= defs.deep_view() + scan_defs(gl, i + 1, true));
                    }
                    found = true;
                },
                None => {
                    if found {
                        done = true;
                        proof {
                            assert(scan_defs(gl, i as int, found) =~~= Seq::<Seq<u8>>::empty());
                        }
                    } else {
                        proof {
                            assert(scan_defs(gl, i as int, found) =~~= scan_defs(gl, i + 1, found));
                        }
                    }
                },
            }
            if !done {
                i = i + 1;
            }
        }
    }
    proof {
        if !done {
            assert(scan_defs(gl, i as int, found) =~~= Seq::<Seq<u8>>::empty());
        }
        assert(defs.deep_view() + Seq::<Seq<u8>>::empty() =~~= defs.deep_view());
    }
    (defs, nums)
}

/// Reference selection and target number, executable.
fn select_target(defs: &Vec<Vec<u8>>, nums: &Vec<u32>, draw: u32) -> (r: (Option<Vec<u8>>, u32))
    requires
        draw < 5,
        nums@.len() == defs.deep_view().len(),
        forall|k: int|
            0 <= k < nums@.len() ==> (#[trigger] nums@[k]) as int == ad_define_num(
                defs.deep_view()[k],
            ) && nums@[k] <= 9999,
    ensures
        r.1 as int == target_num(defs.deep_view(), draw as int),
        r.1 <= 9999,
        match r.0 {
            Some(l) => reference_def(defs.deep_view(), draw as int) == Some(l@),
            None => reference_def(defs.deep_view(), draw as int) is None,
        },
{
    let ghost gd = defs.deep_view();
    let n: usize = defs.len();
    proof {
        assert(gd.len() == n as int);
    }
    let cap: usize = if n > 1 {
        n - 1
    } else {
        0
    };
    let dr: usize = draw as usize;
    let si: usize = if 5 + dr <= cap {
        5 + dr
    } else {
        cap
    };
    let sc: usize = if n <= 5 {
        n
    } else {
        si
    };
    if sc > 0 && si < n {
        let refv = copy_bytes(defs[si].as_slice());
        proof {
            assert(defs[si as int]@ =~= gd[si as int]);
        }
        (Some(refv), nums[si])
    } else {
        let d: u32 = if n == 0 {
            10
        } else if n <= 5 {
            nums[n - 1] + 1
        } else {
            10
        };
        let t: u32 = if d <= 9999 {
            d
        } else {
            9999
        };
        (None, t)
    }
}

/// Renumbering of one line, executable.
pub fn renum_line_exec(l: &[u8], target: u32) -> (r: Vec<u8>)
    requires
        target <= 9999,
    ensures
        r@ == renum_line(l@, target as int),
{
    let add = tok_add_vec();
    let g = tok_g54d_vec();
    let pfx_ok = has_prefix(l, add.as_slice()) || has_prefix(l, g.as_slice());
    if !pfx_ok {
        return copy_bytes(l);
    }
    let run = digit_run_at(l, 4);
    let m: usize = if run > 4 {
        4
    } else {
        run
    };
    proof {
        assert(m as int == renum_match_len(l@));
    }
    if m < 2 {
        return copy_bytes(l);
    }
    proof {
        lemma_run_props(l@, 4);
    }
    let num = parse_run_val(l, 4, m);
    proof {
        assert(num as int == renum_num(l@));
    }
    if num < target || num == 9999 {
        copy_bytes(l)
    } else {
        let mut out: Vec<u8> = Vec::new();
        out.extend_from_slice(&l[0..4]);
        let mut ds = u32_to_dec(num + 1);
        out.append(&mut ds);
        out.extend_from_slice(&l[(4 + m)..l.len()]);
        proof {
            assert(l@.subrange(0, 4) + dec_str(num as int + 1) + l@.skip(4 + m as int) =~= out@);
        }
        out
    }
}

/// The renumbering pass, executable.
fn renum_all(lines: &Vec<Vec<u8>>, target: u32) -> (r: Vec<Vec<u8>>)
    requires
        target <= 9999,
    ensures
        r.deep_view() == renum_lines(lines.deep_view(), target as int),
{
    let ghost gl = lines.deep_view();
    let mut out: Vec<Vec<u8>> = Vec::new();
    let mut i: usize = 0;
    while i < lines.len()
        invariant
            0 <= i <= gl.len(),
            out.deep_view().len() == i,
            forall|k: int|
                0 <= k < i ==> #[trigger] out.deep_view()[k] == renum_line(gl[k], target as int),
        decreases gl.len() - i,
    {
        proof {
            assert(lines[i as int]@ =~= gl[i as int]);
        }
        let rl = renum_line_exec(lines[i].as_slice(), target);
        let ghost od = out.deep_view();
        out.push(rl);
        proof {
            assert(out.deep_view() =~~= od.push(rl@));
        }
        i = i + 1;
    }
    proof {
        assert(out.deep_view() =~~= renum_lines(gl, target as int));
    }
    out
}

/// Two-digit zero-padded rendering, executable.
fn two_digits_vec(v: u32) -> (r: Vec<u8>)
    requires
        v < 100,
    ensures
        r@ == two_digits(v as int),
{
    let mut o: Vec<u8> = Vec::new();
    o.push(('0' as u8) + ((v / 10) as u8));
    o.push(('0' as u8) + ((v % 10) as u8));
    assert(o@ =~= two_digits(v as int));
    o
}

/// The candidate size string, executable.
fn final_size_vec(cc: u32, sf: u32) -> (r: Vec<u8>)
    requires
        cc <= 100,
        sf < 100,
    ensures
        r@ == final_size(cc as int, sf as int),
{
    if cc == 0 && sf == 0 {
        let mut o: Vec<u8> = Vec::new();
        o.push('0' as u8);
        o.push('.' as u8);
        o.push('0' as u8);
        o.push('1' as u8);
        o.push('0' as u8);
        o.push('0' as u8);
        assert(o@ =~= tok_fallback_size());
        o
    } else {
        let mut o: Vec<u8> = Vec::new();
        if cc >= 100 {
            o.push('1' as u8);
            o.push('.' as u8);
            o.push('0' as u8);
            o.push('0' as u8);
            assert(o@ =~= size_base(cc as int));
        } else {
            o.push('0' as u8);
            o.push('.' as u8);
            let mut d = two_digits_vec(cc);
            o.append(&mut d);
            assert(o@ =~= size_base(cc as int));
        }
        let mut sd = two_digits_vec(sf);
        o.append(&mut sd);
        assert(o@ =~= size_base(cc as int) + two_digits(sf as int));
        o
    }
}

/// Executable size-character test.
fn byte_is_size(b: u8) -> (r: bool)
    ensures
        r == is_size_char(b),
{
    (('0' as u8) <= b && b <= ('9' as u8)) || b == ('.' as u8)
}

/// Maximal size-character run length starting at `from`, executable.
fn size_run_at(l: &[u8], from: usize) -> (r: usize)
    requires
        from <= l@.len(),
    ensures
        from + r == from as int + size_run_len(l@, from as int),
        from + r <= l@.len(),
{
    let mut j: usize = from;
    while j < l.len() && byte_is_size(l[j])
        invariant
            from <= j <= l@.len(),
            size_run_len(l@, from as int) == j - from + size_run_len(l@, j as int),
        decreases l@.len() - j,
    {
        assert(size_run_len(l@, j as int) == 1 + size_run_len(l@, j + 1));
        j = j + 1;
    }
    j - from
}

/// Substitution of the first size field after a comma, executable.
fn subst_size_exec(l: &[u8], size: &[u8]) -> (r: Vec<u8>)
    ensures
        r@ == subst_size(l@, size@),
{
    let mut i: usize = 0;
    while i < l.len()
        invariant
            0 <= i <= l@.len(),
            find_size_pos(l@, 0) == find_size_pos(l@, i as int),
        decreases l@.len() - i,
    {
        if l[i] == (',' as u8) && i + 1 < l.len() && byte_is_size(l[i + 1]) {
            proof {
                assert(find_size_pos(l@, i as int) == i);
            }
            let run = size_run_at(l, i + 1);
            let mut out: Vec<u8> = Vec::new();
            out.extend_from_slice(&l[0..(i + 1)]);
            out.extend_from_slice(size);
            out.extend_from_slice(&l[(i + 1 + run)..l.len()]);
            proof {
                assert(l@.subrange(0, i + 1) + size@ + l@.skip(i + 1 + size_run_len(l@, i + 1))
                    =~= out@);
            }
            return out;
        }
        proof {
            assert(find_size_pos(l@, i as int) == find_size_pos(l@, i + 1));
        }
        i = i + 1;
    }
    proof {
        assert(find_size_pos(l@, i as int) == -1);
    }
    copy_bytes(l)
}

/// The synthesized hash aperture, executable.
fn synth_aperture_exec(refr: &Option<Vec<u8>>, target: u32, size: &[u8]) -> (r: Vec<u8>)
    requires
        target <= 9999,
    ensures
        match refr {
            Some(l) => r@ == synth_aperture(Some(l@), target as int, size@),
            None => r@ == synth_aperture(None, target as int, size@),
        },
{
    match refr {
        Some(l) => subst_size_exec(l.as_slice(), size),
        None => {
            let mut out = tok_add_vec();
            let mut ds = u32_to_dec(target);
            out.append(&mut ds);
            out.push('C' as u8);
            out.push(',' as u8);
            out.extend_from_slice(size);
            out.push('*' as u8);
            out.push('%' as u8);
            proof {
                assert(tok_add() + dec_str(target as int) + seq![('C' as u8), (',' as u8)] + size@
                    + seq![('*' as u8), ('%' as u8)] =~= out@);
            }
            out
        },
    }
}

/// Insertion of the hash aperture at a structurally valid point, executable.
fn insert_aperture_exec(rlines: Vec<Vec<u8>>, target: u32, hap: Vec<u8>) -> (r: Vec<Vec<u8>>)
    requires
        target <= 9999,
    ensures
        r.deep_view() == insert_aperture(rlines.deep_view(), target as int, hap@),
{
    let ghost gl = rlines.deep_view();
    let ghost gh = hap@;
    let mut lines = rlines;
    let mut pat = tok_add_vec();
    let mut ds = u32_to_dec(target + 1);
    pat.append(&mut ds);
    proof {
        assert(pat@ =~= tok_add() + dec_str(target as int + 1));
    }
    let mut i: usize = 0;
    while i < lines.len()
        invariant
            0 <= i <= gl.len(),
            lines.deep_view() == gl,
            pat@ == tok_add() + dec_str(target as int + 1),
            find_next_ap(gl, pat@, 0) == find_next_ap(gl, pat@, i as int),
        decreases gl.len() - i,
    {
        let l = &lines[i];
        proof {
            assert(l@ =~= gl[i as int]);
        }
        let is_match = has_prefix(l.as_slice(), pat.as_slice()) && l.len() > pat.len()
            && !crate::text::byte_is_digit(l[pat.len()]);
        if is_match {
            proof {
                assert(find_next_ap(gl, pat@, i as int) == i);
            }
            let ghost od = lines.deep_view();
            lines.insert(i, hap);
            proof {
                assert(lines.deep_view() =~~= od.insert(i as int, gh));
            }
            return lines;
        }
        proof {
            assert(!is_next_ap_line(gl[i as int], pat@));
            assert(find_next_ap(gl, pat@, i as int) == find_next_ap(gl, pat@, i + 1));
        }
        i = i + 1;
    }
    proof {
        assert(find_next_ap(gl, pat@, i as int) == -1);
    }
    // no directive defines target + 1: find the units/mode directive
    let mo = tok3('%' as u8, 'M' as u8, 'O' as u8);
    let lp = tok3('%' as u8, 'L' as u8, 'P' as u8);
    let mut m: usize = 0;
    let mut mo_found: bool = false;
    while m < lines.len() && !mo_found
        invariant
            0 <= m <= gl.len(),
            lines.deep_view() == gl,
            mo@ == tok_mo(),
            mo_found ==> 0 <= (m as int) < gl.len() && find_prefix_line(gl, tok_mo(), 0)
                == m as int,
            !mo_found ==> find_prefix_line(gl, tok_mo(), 0) == find_prefix_line(
                gl,
                tok_mo(),
                m as int,
            ),
        decreases gl.len() - m, (if mo_found {
            0int
        } else {
            1int
        }),
    {
        proof {
            assert(lines[m as int]@ =~= gl[m as int]);
        }
        if has_prefix(lines[m].as_slice(), mo.as_slice()) {
            mo_found = true;
        } else {
            proof {
                assert(find_prefix_line(gl, tok_mo(), m as int) == find_prefix_line(
                    gl,
                    tok_mo(),
                    m + 1,
                ));
            }
            m = m + 1;
        }
    }
    if mo_found {
        let mut j: usize = m + 1;
        proof {
            assert(find_prefix_line(gl, tok_mo(), 0) >= 0);
        }
        while j < lines.len()
            invariant
                m + 1 <= j <= gl.len(),
                lines.deep_view() == gl,
                lp@ == tok_lp(),
                find_lp_or_g(gl, m as int + 1) == find_lp_or_g(gl, j as int),
            decreases gl.len() - j,
        {
            let l = &lines[j];
            proof {
                assert(l@ =~= gl[j as int]);
            }
            let is_g = l.len() >= 1 && l[0] == ('G' as u8);
            proof {
                let gp = seq![('G' as u8)];
                assert(gp.len() == 1 && gp[0] == ('G' as u8));
                if is_g {
                    assert(forall|i: int| 0 <= i < gp.len() ==> gl[j as int][i] == #[trigger] gp[i]);
                }
                assert(is_g == starts_with(gl[j as int], gp));
            }
            if has_prefix(l.as_slice(), lp.as_slice()) || is_g {
                proof {
                    assert(find_lp_or_g(gl, j as int) == j);
                }
                let ghost od = lines.deep_view();
                lines.insert(j, hap);
                proof {
                    assert(lines.deep_view() =~~= od.insert(j as int, gh));
                }
                return lines;
            }
            proof {
                assert(find_lp_or_g(gl, j as int) == find_lp_or_g(gl, j + 1));
            }
            j = j + 1;
        }
        proof {
            assert(find_lp_or_g(gl, j as int) == -1);
        }
        let ghost od = lines.deep_view();
        lines.push(hap);
        proof {
            assert(lines.deep_view() =~~= od.push(gh));
        }
        lines
    } else {
        proof {
            assert(m as int == gl.len());
            assert(find_prefix_line(gl, tok_mo(), m as int) == -1);
        }
        let ghost od = lines.deep_view();
        lines.push(hap);
        proof {
            assert(lines.deep_view() =~~= od.push(gh));
        }
        lines
    }
}

/// `"494d"` as a byte vector.
fn tok_import_marker_vec() -> (r: Vec<u8>)
    ensures
        r@ == tok_import_marker(),
{
    let mut v: Vec<u8> = Vec::new();
    v.push('4' as u8);
    v.push('9' as u8);
    v.push('4' as u8);
    v.push('d' as u8);
    assert(v@ =~= tok_import_marker());
    v
}

/// The watermark step on raw content, executable and deterministic in its
/// arguments: `draw` is the selection draw (`0 <= draw < 5`) and `cc` the
/// two-decimal base size in hundredths (`0 <= cc <= 100`).
pub fn watermark_content(content: Vec<u8>, ignore: bool, imported: bool, draw: u32, cc: u32) -> (r:
    Vec<u8>)
    requires
        draw < 5,
        cc <= 100,
    ensures
        r@ == watermark_spec(content@, ignore, imported, draw as int, cc as int),
        (ignore || content@.len() > size_limit()) ==> r@ == content@,
{
    if ignore || content.len() > 30000000 {
        return content;
    }
    let lines = split_lines_bytes(content.as_slice());
    let (defs, nums) = scan_aperture_defs(&lines);
    let (refr, target) = select_target(&defs, &nums, draw);
    let rlines = renum_all(&lines, target);
    let joined = join_lines_bytes(&rlines);
    let ghost grj = join_lines(rlines.deep_view());
    let hin: Vec<u8> = if imported {
        let mut v = tok_import_marker_vec();
        v.extend_from_slice(joined.as_slice());
        proof {
            assert(v@ =~= hash_input(grj, imported));
        }
        v
    } else {
        joined
    };
    let digest = md5_digest(hin.as_slice());
    let sf: u32 = (digest[15] as u32) % 100;
    proof {
        assert(hin@ == hash_input(grj, imported));
        assert(sf as int == hash_suffix(grj, imported));
    }
    let size = final_size_vec(cc, sf);
    let hap = synth_aperture_exec(&refr, target, size.as_slice());
    let out_lines = insert_aperture_exec(rlines, target, hap);
    let r = join_lines_bytes(&out_lines);
    proof {
        let gll = split_lines(content@);
        assert(out_lines.deep_view() == watermark_lines(
            gll,
            imported,
            draw as int,
            cc as int,
        ));
    }
    r
}

} // verus!
