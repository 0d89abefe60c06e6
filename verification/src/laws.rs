//! Laws of the library, stated and proved over the same spec functions the
//! executable functions' contracts use.
#![verifier::loop_isolation(false)]
use vstd::prelude::*;
use vstd::string::*;

use crate::classify::{classify_spec, detect_auto, detect_spec, inner_dest, regex_matches, regex_valid, style_matches_any};
use crate::styles::{all_styles_v, jlc_style_v, kicad_style_v, sentinel_pattern, EdaV, FileNameV};
use crate::text::{
    count_byte,
    dec_str,
    free_of,
    lemma_join_count,
    lemma_replace_span,
    lemma_replace_step,
    lemma_split_lines_shape,
    dec_val,
    digit_run_len,
    first_digit_run,
    is_digit,
    is_digit_seq,
    join_lines,
    lemma_dec_str_digits,
    lemma_dec_str_val,
    lemma_run_exact,
    lemma_run_props,
    replace_all,
    split_lines,
    starts_with,
};
use crate::watermark::{
    ad_define_num,
    final_size,
    hash_suffix,
    insert_aperture,
    is_ad_define,
    is_renum_match,
    lemma_final_size_free,
    lemma_insert_free,
    lemma_renum_lines_free,
    lemma_scan_defs_sound,
    lemma_synth_free,
    lemma_target_num_bounds,
    reference_def,
    scan_defs,
    synth_aperture,
    target_num,
    renum_line,
    renum_lines,
    renum_match_len,
    renum_num,
    tok_add,
    watermark_lines,
    watermark_spec,
};

verus! {

/// Classification is deterministic: a fixed style and a fixed file name give
/// one classification result, however often it is computed. (Randomness and
/// timestamps play no part in classification.)
pub proof fn lemma_classification_deterministic(
    s1: FileNameV,
    s2: FileNameV,
    n1: Seq<u8>,
    n2: Seq<u8>,
)
    requires
        s1 == s2,
        n1 == n2,
    ensures
        classify_spec(s1, n1) == classify_spec(s2, n2),
{
}

/// The whole directory pass is deterministic: a fixed style and a fixed
/// listing give one plan, so repeated runs produce the same destination
/// names in the same order.
pub proof fn lemma_directory_plan_deterministic(
    s1: FileNameV,
    s2: FileNameV,
    n1: Seq<Seq<u8>>,
    n2: Seq<Seq<u8>>,
)
    requires
        s1 == s2,
        n1 == n2,
    ensures
        crate::classify::plan_spec(s1, n1, 0) == crate::classify::plan_spec(s2, n2, 0),
{
}

/// Style detection is deterministic: a fixed selection mode and a fixed
/// directory listing give one detection result.
pub proof fn lemma_detection_deterministic(
    e1: EdaV,
    e2: EdaV,
    f1: Seq<Seq<u8>>,
    f2: Seq<Seq<u8>>,
)
    requires
        e1 == e2,
        f1 == f2,
    ensures
        detect_spec(e1, f1) == detect_spec(e2, f2),
{
}


/// First match wins, in declaration order: when the first registered style's
/// board-outline pattern matches no file of the listing and the second
/// style's pattern matches some file, auto detection selects the second
/// style (the KiCAD entry).
pub proof fn lemma_auto_detection_first_match_wins(files: Seq<Seq<u8>>)
    requires
        regex_valid(jlc_style_v().board_outline),
        regex_valid(kicad_style_v().board_outline),
        forall|i: int|
            0 <= i < files.len() ==> !regex_matches(
                jlc_style_v().board_outline,
                #[trigger] files[i],
            ),
        exists|i: int|
            0 <= i < files.len() && regex_matches(
                kicad_style_v().board_outline,
                #[trigger] files[i],
            ),
    ensures
        detect_spec(EdaV::Auto, files) == Ok::<FileNameV, crate::errors::TransError>(
            kicad_style_v(),
        ),
{
    lemma_outlines_not_sentinel();
    assert(!style_matches_any(jlc_style_v().board_outline, files));
    assert(style_matches_any(kicad_style_v().board_outline, files));
    assert(all_styles_v()[0] == jlc_style_v() && all_styles_v()[1] == kicad_style_v());
    assert(detect_auto(all_styles_v(), files, 0) == detect_auto(all_styles_v(), files, 1));
}

/// The built-in JLC and KiCAD board-outline patterns are not the sentinel.
proof fn lemma_outlines_not_sentinel()
    ensures
        jlc_style_v().board_outline != sentinel_pattern(),
        kicad_style_v().board_outline != sentinel_pattern(),
{
    broadcast use vstd::string::is_ascii_spec_bytes;

    reveal_strlit("Gerber_BoardOutlineLayer.GKO");
    assert(vstd::string::is_ascii("Gerber_BoardOutlineLayer.GKO"));
    assert("Gerber_BoardOutlineLayer.GKO".spec_bytes().len() == 28);
    reveal_strlit("-Edge.Cuts");
    assert(vstd::string::is_ascii("-Edge.Cuts"));
    assert("-Edge.Cuts".spec_bytes().len() == 10);
}

/// The hash suffix is a pure function of the renumbered content and the
/// import flag: equal inputs give the same two-digit value.
pub proof fn lemma_hash_suffix_stable(a: Seq<u8>, b: Seq<u8>, ia: bool, ib: bool)
    requires
        a == b,
        ia == ib,
    ensures
        hash_suffix(a, ia) == hash_suffix(b, ib),
        0 <= hash_suffix(a, ia) < 100,
{
}

/// The size threshold is sharp: content over the limit is returned unchanged,
/// content at or under it goes through the full line-by-line rewrite.
pub proof fn lemma_size_threshold(c: Seq<u8>, imported: bool, draw: int, cc: int)
    ensures
        c.len() > 30000000 ==> watermark_spec(c, false, imported, draw, cc) == c,
        c.len() <= 30000000 ==> watermark_spec(c, false, imported, draw, cc) == join_lines(
            watermark_lines(split_lines(c), imported, draw, cc),
        ),
{
}

/// A watermarked document has exactly one more line than its renumbered
/// input: the insertion step always adds the synthesized aperture.
pub proof fn lemma_watermark_adds_one_line(lines: Seq<Seq<u8>>, imported: bool, draw: int, cc: int)
    ensures
        watermark_lines(lines, imported, draw, cc).len() == lines.len() + 1,
{
    let target = crate::watermark::target_num(crate::watermark::scan_defs(lines, 0, false), draw);
    let rl = renum_lines(lines, target);
    assert(rl.len() == lines.len());
    let pat = tok_add() + dec_str(target + 1);
    crate::watermark::lemma_find_next_ap_range(rl, pat, 0);
    crate::watermark::lemma_find_prefix_range(rl, crate::watermark::tok_mo(), 0);
    let m = crate::watermark::find_prefix_line(rl, crate::watermark::tok_mo(), 0);
    if m >= 0 {
        crate::watermark::lemma_find_lp_or_g_range(rl, m + 1);
    }
}

/// A document within the size limit is really watermarked: the result is
/// never the input. Every line of the split document is newline-free, the
/// rewrite inserts one newline-free aperture line, and joining gives a text
/// with exactly one more newline than the input.
pub proof fn lemma_watermark_changes_content(c: Seq<u8>, imported: bool, draw: int, cc: int)
    requires
        c.len() <= 30000000,
        0 <= draw,
        0 <= cc <= 100,
    ensures
        watermark_spec(c, false, imported, draw, cc) != c,
{
    let nl = '\n' as u8;
    let lines = split_lines(c);
    lemma_split_lines_shape(c);
    let defs = scan_defs(lines, 0, false);
    let target = target_num(defs, draw);
    lemma_target_num_bounds(lines, draw);
    lemma_scan_defs_sound(lines, 0, false);
    let rl = renum_lines(lines, target);
    lemma_renum_lines_free(lines, target);
    let suffix = hash_suffix(join_lines(rl), imported);
    let size = final_size(cc, suffix);
    lemma_final_size_free(cc, suffix);
    let refr = reference_def(defs, draw);
    assert(refr matches Some(l) ==> free_of(l, nl)) by {
        match refr {
            Some(l) => {
                let si = crate::watermark::sel_index(defs.len() as int, draw);
                assert(l == defs[si]);
                assert(exists|j: int| 0 <= j < lines.len() && lines[j] == defs[si]);
                let j = choose|j: int| 0 <= j < lines.len() && lines[j] == defs[si];
                assert(free_of(lines[j], nl));
            },
            None => {},
        }
    }
    let hap = synth_aperture(refr, target, size);
    lemma_synth_free(refr, target, size);
    let wl = insert_aperture(rl, target, hap);
    lemma_insert_free(rl, target, hap);
    lemma_watermark_adds_one_line(lines, imported, draw, cc);
    assert(wl == watermark_lines(lines, imported, draw, cc));
    assert(wl.len() == lines.len() + 1);
    lemma_join_count(wl);
    assert(count_byte(join_lines(wl), nl) == count_byte(c, nl) + 1);
    assert(watermark_spec(c, false, imported, draw, cc) == join_lines(wl));
    if join_lines(wl) == c {
        assert(count_byte(join_lines(wl), nl) == count_byte(c, nl));
        assert(false);
    }
}

/// The canonical rendering of a value up to four digits long stays within
/// four digits.
proof fn lemma_dec_str_len(v: int)
    requires
        0 <= v <= 9999,
    ensures
        1 <= dec_str(v).len() <= 4,
        v <= 9 ==> dec_str(v).len() == 1,
        v <= 99 ==> dec_str(v).len() <= 2,
        v <= 999 ==> dec_str(v).len() <= 3,
    decreases v,
{
    if v >= 10 {
        lemma_dec_str_len(v / 10);
    }
}

/// Renumbering one aperture-define directive: a number below the target or at
/// the cap is untouched (the whole line is), any other number becomes exactly
/// its value plus one, and the rewritten line still begins `"%ADD"` with that
/// number as its numeric field.
pub proof fn lemma_renumber_shift(l: Seq<u8>, target: int)
    requires
        is_ad_define(l),
    ensures
        renum_num(l) == ad_define_num(l),
        (ad_define_num(l) < target || ad_define_num(l) == 9999) ==> renum_line(l, target) == l,
        !(ad_define_num(l) < target || ad_define_num(l) == 9999) ==> {
            &&& starts_with(renum_line(l, target), tok_add())
            &&& renum_num(renum_line(l, target)) == ad_define_num(l) + 1
        },
{
    let m = digit_run_len(l, 4);
    lemma_run_props(l, 4);
    assert(renum_match_len(l) == m);
    let run = l.subrange(4, 4 + m);
    assert(is_digit_seq(run));
    crate::text::lemma_dec_val_upper(run);
    let v = ad_define_num(l);
    assert(is_renum_match(l) && renum_num(l) == v) by {
        assert(crate::watermark::is_renum_match(l));
    }
    if !(v < target || v == 9999) {
        let ds = dec_str(v + 1);
        lemma_dec_str_digits(v + 1);
        lemma_dec_str_val(v + 1);
        lemma_dec_str_len(v + 1);
        let l2 = l.subrange(0, 4) + ds + l.skip(4 + m);
        assert(renum_line(l, target) == l2);
        // the prefix is kept
        assert(starts_with(l2, tok_add())) by {
            assert(forall|i: int| 0 <= i < 4 ==> l2[i] == l[i]);
            assert(forall|i: int| 0 <= i < tok_add().len() ==> l2[i] == #[trigger] tok_add()[i]);
        }
        // the numeric field of the rewritten line is exactly the rendering
        assert(digit_run_len(l2, 4) == ds.len()) by {
            assert(forall|j: int| 4 <= j < 4 + ds.len() ==> is_digit(#[trigger] l2[j])) by {
                assert(forall|j: int|
                    4 <= j < 4 + ds.len() ==> l2[j] == #[trigger] ds[j - 4] && is_digit(ds[j - 4]));
            }
            // the byte after the rendering is the byte after the old run
            assert(l.len() > 4 + m);
            assert(l2[4 + ds.len() as int] == l.skip(4 + m)[0]);
            assert(l.skip(4 + m)[0] == l[4 + m]);
            assert(!is_digit(l[4 + m]));
            lemma_run_exact(l2, 4, ds.len() as int);
        }
        assert(renum_match_len(l2) == ds.len());
        assert(l2.subrange(4, 4 + ds.len() as int) =~= ds);
        assert(renum_num(l2) == dec_val(ds));
    }
}


/// No-collision renumbering: two aperture-define directives with distinct
/// numbers, neither at the cap, still carry distinct numbers after the
/// renumbering pass, and each number is unchanged or exactly one more.
/// (Two directives that already share a number keep sharing it, and a
/// directive at 9998 can collide with one pinned at the cap 9999: both are
/// excluded by the premises.)
pub proof fn lemma_renumber_no_collision(a: Seq<u8>, b: Seq<u8>, target: int)
    requires
        is_ad_define(a),
        is_ad_define(b),
        ad_define_num(a) != ad_define_num(b),
        ad_define_num(a) != 9999,
        ad_define_num(b) != 9999,
    ensures
        renum_num(renum_line(a, target)) != renum_num(renum_line(b, target)),
        renum_num(renum_line(a, target)) == ad_define_num(a) || renum_num(renum_line(a, target))
            == ad_define_num(a) + 1,
        renum_num(renum_line(b, target)) == ad_define_num(b) || renum_num(renum_line(b, target))
            == ad_define_num(b) + 1,
{
    lemma_renumber_shift(a, target);
    lemma_renumber_shift(b, target);
}

/// The renumbering pass applied to a whole document touches each line
/// independently: line `k` of the result is the renumbering of line `k`.
pub proof fn lemma_renumber_pointwise(lines: Seq<Seq<u8>>, target: int, k: int)
    requires
        0 <= k < lines.len(),
    ensures
        renum_lines(lines, target).len() == lines.len(),
        renum_lines(lines, target)[k] == renum_line(lines[k], target),
{
}

/// Inner-layer round trip: a file name whose first digit run is `"3"`,
/// classified under the inner-layer key, produces the canonical destination
/// with `"3"` substituted into both numeric template slots.
#[verifier::rlimit(100)]
pub proof fn lemma_inner_layer_round_trip(name: Seq<u8>)
    requires
        first_digit_run(name) == seq![('3' as u8)],
    ensures
        inner_dest(jlc_style_v(), name) == "Gerber_InnerLayer3.G3".spec_bytes(),
{
    let run = seq![('3' as u8)];
    assert(dec_val(run) == 3) by {
        assert(run.drop_last() =~= Seq::<u8>::empty());
        assert(dec_val(run.drop_last()) == 0);
    }
    assert(dec_str(3) =~= run);
    lemma_template_bytes();
    lemma_result_bytes();
    let num = dec_str(dec_val(first_digit_run(name)));
    assert(num =~= run);
    lemma_first_slot_fill();
    lemma_second_slot_fill();
    let s2 = replace_all(mid_concrete(), crate::classify::tok_slot1(), run);
    assert(s2 =~= out_concrete());
    assert(inner_dest(jlc_style_v(), name) =~= s2);
}

/// Filling the first slot of the concrete template with `"3"`.
#[verifier::rlimit(100)]
proof fn lemma_first_slot_fill()
    ensures
        replace_all(tpl_concrete(), crate::classify::tok_slot0(), seq![('3' as u8)])
            =~= mid_concrete(),
{
    let run = seq![('3' as u8)];
    let slot0 = crate::classify::tok_slot0();
    let tpl = tpl_concrete();
    // first slot: "Gerber_InnerLayer" + "{0}" + ".G{1}"
    let a1 = tpl.subrange(0, 17);
    let b1 = tpl.subrange(20, 25);
    assert(tpl =~= a1 + slot0 + b1);
    assert(forall|i: int| 0 <= i < a1.len() ==> #[trigger] a1[i] != slot0[0]);
    lemma_replace_span(a1, slot0, run, b1);
    // "{0}" occurs nowhere in ".G{1}": copy it through byte by byte
    lemma_replace_step(b1, slot0, run);
    let c1 = b1.skip(1);
    lemma_replace_step(c1, slot0, run);
    let c2 = c1.skip(1);
    assert(c2[0] == ('{' as u8) && c2[1] == ('1' as u8));
    lemma_replace_step(c2, slot0, run);
    let c3 = c2.skip(1);
    lemma_replace_step(c3, slot0, run);
    let c4 = c3.skip(1);
    lemma_replace_step(c4, slot0, run);
    let c5 = c4.skip(1);
    assert(c5.len() == 0);
    assert(replace_all(c5, slot0, run) =~= c5);
    assert(replace_all(b1, slot0, run) =~= b1) by {
        assert(replace_all(b1, slot0, run) =~= seq![b1[0]] + (seq![c1[0]] + (seq![c2[0]] + (seq![
            c3[0],
        ] + (seq![c4[0]] + c5)))));
    }
    assert(replace_all(tpl, slot0, run) =~= mid_concrete());
}

/// Filling the second slot of the half-filled template with `"3"`.
#[verifier::rlimit(100)]
proof fn lemma_second_slot_fill()
    ensures
        replace_all(mid_concrete(), crate::classify::tok_slot1(), seq![('3' as u8)])
            =~= out_concrete(),
{
    let run = seq![('3' as u8)];
    let slot1 = crate::classify::tok_slot1();
    // second slot: "Gerber_InnerLayer3.G" + "{1}"
    let a2 = mid_concrete().subrange(0, 20);
    assert(mid_concrete() =~= a2 + slot1 + Seq::<u8>::empty());
    assert(forall|i: int| 0 <= i < a2.len() ==> #[trigger] a2[i] != slot1[0]);
    lemma_replace_span(a2, slot1, run, Seq::<u8>::empty());
    assert(replace_all(Seq::<u8>::empty(), slot1, run) =~= Seq::<u8>::empty());
    assert(replace_all(mid_concrete(), slot1, run) =~= out_concrete());
}

/// `"Gerber_InnerLayer{0}.G{1}"` as bytes.
spec fn tpl_concrete() -> Seq<u8> {
    seq![
        ('G' as u8), ('e' as u8), ('r' as u8), ('b' as u8), ('e' as u8), ('r' as u8), ('_' as u8),
        ('I' as u8), ('n' as u8), ('n' as u8), ('e' as u8), ('r' as u8), ('L' as u8), ('a' as u8),
        ('y' as u8), ('e' as u8), ('r' as u8), ('{' as u8), ('0' as u8), ('}' as u8), ('.' as u8),
        ('G' as u8), ('{' as u8), ('1' as u8), ('}' as u8),
    ]
}

/// `"Gerber_InnerLayer3.G{1}"` as bytes.
spec fn mid_concrete() -> Seq<u8> {
    seq![
        ('G' as u8), ('e' as u8), ('r' as u8), ('b' as u8), ('e' as u8), ('r' as u8), ('_' as u8),
        ('I' as u8), ('n' as u8), ('n' as u8), ('e' as u8), ('r' as u8), ('L' as u8), ('a' as u8),
        ('y' as u8), ('e' as u8), ('r' as u8), ('3' as u8), ('.' as u8), ('G' as u8), ('{' as u8),
        ('1' as u8), ('}' as u8),
    ]
}

/// `"Gerber_InnerLayer3.G3"` as bytes.
spec fn out_concrete() -> Seq<u8> {
    seq![
        ('G' as u8), ('e' as u8), ('r' as u8), ('b' as u8), ('e' as u8), ('r' as u8), ('_' as u8),
        ('I' as u8), ('n' as u8), ('n' as u8), ('e' as u8), ('r' as u8), ('L' as u8), ('a' as u8),
        ('y' as u8), ('e' as u8), ('r' as u8), ('3' as u8), ('.' as u8), ('G' as u8), ('3' as u8),
    ]
}

/// The canonical inner-layer template's bytes, concretely.
proof fn lemma_template_bytes()
    ensures
        jlc_style_v().inner_layer_template =~= tpl_concrete(),
{
    broadcast use vstd::string::is_ascii_spec_bytes;

    reveal_strlit("Gerber_InnerLayer{0}.G{1}");
    let s = "Gerber_InnerLayer{0}.G{1}";
    assert(vstd::string::is_ascii(s));
    assert(s.spec_bytes() =~= tpl_concrete());
}

/// The round-trip destination's bytes, concretely.
proof fn lemma_result_bytes()
    ensures
        "Gerber_InnerLayer3.G3".spec_bytes() =~= out_concrete(),
{
    broadcast use vstd::string::is_ascii_spec_bytes;

    reveal_strlit("Gerber_InnerLayer3.G3");
    let s = "Gerber_InnerLayer3.G3";
    assert(vstd::string::is_ascii(s));
    assert(s.spec_bytes() =~= out_concrete());
}

} // verus!
