//! Style detection and layer classification: pick a registered naming style
//! for a file set, then map each file name to its canonical destination
//! name(s). Pattern matching is done by the regex crate behind trusted
//! wrappers; everything around the calls is verified.
#![verifier::loop_isolation(false)]
use vstd::prelude::*;

use crate::errors::TransError;
use crate::styles::{
    all_styles_v,
    get_spec,
    jlc_style,
    jlc_style_v,
    key_order,
    kicad_style,
    kicad_style_v,
    patterns_of,
    protel_style,
    protel_style_v,
    sentinel_pattern,
    sentinel_pattern_vec,
    EdaV,
    FileName,
    FileNameV,
    LayerKey,
    EDA,
};
use crate::text::{
    bytes_eq,
    dec_str,
    dec_val,
    digit_run_at,
    first_digit_pos,
    first_digit_run,
    canonical_num,
    copy_bytes,
    is_digit_seq,
    lemma_run_props,
    replace_all,
    replace_all_bytes,
};

verus! {

/// The given pattern is well formed: UTF-8 text that the regex crate
/// compiles. A function of the pattern bytes alone.
pub uninterp spec fn regex_valid(pat: Seq<u8>) -> bool;

/// The given pattern matches the given text somewhere (the unanchored search
/// the regex crate performs). A function of pattern and text alone.
pub uninterp spec fn regex_matches(pat: Seq<u8>, text: Seq<u8>) -> bool;

/// Relies on `regex::bytes::Regex::new`: whether the pattern bytes are UTF-8
/// and compile as a regex; a function of the pattern alone; never panics.
#[verifier::external_body]
fn re_compile_ok(pat: &[u8]) -> (r: bool)
    ensures
        r == regex_valid(pat@),
{
    match core::str::from_utf8(pat) {
        Ok(p) => regex::bytes::Regex::new(p).is_ok(),
        Err(_) => false,
    }
}

/// Relies on `regex::bytes::Regex::is_match` (after `Regex::new`, which the
/// precondition guarantees to succeed): whether the pattern matches the text
/// anywhere; a function of pattern and text alone.
#[verifier::external_body]
fn re_is_match(pat: &[u8], text: &[u8]) -> (r: bool)
    requires
        regex_valid(pat@),
    ensures
        r == regex_matches(pat@, text@),
{
    match core::str::from_utf8(pat) {
        Ok(p) => match regex::bytes::Regex::new(p) {
            Ok(re) => re.is_match(text),
            Err(_) => false,
        },
        Err(_) => false,
    }
}

/// Some file of the listing matches the board-outline pattern.
pub open spec fn style_matches_any(bo: Seq<u8>, files: Seq<Seq<u8>>) -> bool {
    exists|i: int| 0 <= i < files.len() && regex_matches(bo, #[trigger] files[i])
}

/// Auto detection from style index `i` on: the first style whose
/// board-outline pattern matches some file path wins; a sentinel pattern is
/// skipped; a pattern that does not compile aborts; no match at all is a
/// detection failure.
pub open spec fn detect_auto(styles: Seq<FileNameV>, files: Seq<Seq<u8>>, i: int) -> Result<
    FileNameV,
    TransError,
>
    decreases styles.len() - i,
{
    if i < 0 || i >= styles.len() {
        Err(TransError::StyleDetectionFailure)
    } else if styles[i].board_outline == sentinel_pattern() {
        detect_auto(styles, files, i + 1)
    } else if !regex_valid(styles[i].board_outline) {
        Err(TransError::MalformedPattern)
    } else if style_matches_any(styles[i].board_outline, files) {
        Ok(styles[i])
    } else {
        detect_auto(styles, files, i + 1)
    }
}

/// Named detection from style index `i` on: exact, case-sensitive identifier
/// match; an absent name is a detection failure.
pub open spec fn detect_custom(styles: Seq<FileNameV>, name: Seq<u8>, i: int) -> Result<
    FileNameV,
    TransError,
>
    decreases styles.len() - i,
{
    if i < 0 || i >= styles.len() {
        Err(TransError::StyleDetectionFailure)
    } else if styles[i].eda_name == name {
        Ok(styles[i])
    } else {
        detect_custom(styles, name, i + 1)
    }
}

/// Style selection over the registered styles: auto detection, named
/// lookup, or a fixed mode, which bypasses detection and yields its built-in
/// style directly. Only auto with no match and an absent name fail.
pub open spec fn detect_spec(eda: EdaV, files: Seq<Seq<u8>>) -> Result<FileNameV, TransError> {
    match eda {
        EdaV::Auto => detect_auto(all_styles_v(), files, 0),
        EdaV::Custom(name) => detect_custom(all_styles_v(), name, 0),
        EdaV::Kicad => Ok(kicad_style_v()),
        EdaV::Protel => Ok(protel_style_v()),
    }
}

/// Whether some file of the listing matches a (valid) pattern, executable.
fn any_match(pat: &[u8], files: &Vec<Vec<u8>>) -> (r: bool)
    requires
        regex_valid(pat@),
    ensures
        r == style_matches_any(pat@, files.deep_view()),
{
    let ghost gf = files.deep_view();
    let mut k: usize = 0;
    while k < files.len()
        invariant
            0 <= k <= gf.len(),
            forall|j: int| 0 <= j < k ==> !regex_matches(pat@, #[trigger] gf[j]),
        decreases gf.len() - k,
    {
        proof {
            assert(files[k as int]@ =~= gf[k as int]);
        }
        if re_is_match(pat, files[k].as_slice()) {
            return true;
        }
        k = k + 1;
    }
    false
}

/// Pick the naming style for a file listing: the detected, named or fixed
/// registry entry, exactly as `detect_spec` describes.
pub fn detect_style(eda: &EDA, files: &Vec<Vec<u8>>) -> (r: Result<FileName, TransError>)
    ensures
        match r {
            Ok(s) => detect_spec(eda@, files.deep_view()) == Ok::<FileNameV, TransError>(s@),
            Err(e) => detect_spec(eda@, files.deep_view()) == Err::<FileNameV, TransError>(e),
        },
{
    let ghost gf = files.deep_view();
    match eda {
        EDA::Kicad => Ok(kicad_style()),
        EDA::Protel => Ok(protel_style()),
        EDA::Auto => {
            let ghost styles = all_styles_v();
            let sent = sentinel_pattern_vec();
            let s0 = jlc_style();
            if !bytes_eq(s0.Board_Outline.as_slice(), sent.as_slice()) {
                if !re_compile_ok(s0.Board_Outline.as_slice()) {
                    return Err(TransError::MalformedPattern);
                }
                if any_match(s0.Board_Outline.as_slice(), files) {
                    return Ok(s0);
                }
            }
            proof {
                assert(detect_auto(styles, gf, 0) == detect_auto(styles, gf, 1));
            }
            let s1 = kicad_style();
            if !bytes_eq(s1.Board_Outline.as_slice(), sent.as_slice()) {
                if !re_compile_ok(s1.Board_Outline.as_slice()) {
                    return Err(TransError::MalformedPattern);
                }
                if any_match(s1.Board_Outline.as_slice(), files) {
                    return Ok(s1);
                }
            }
            proof {
                assert(detect_auto(styles, gf, 1) == detect_auto(styles, gf, 2));
            }
            let s2 = protel_style();
            if !bytes_eq(s2.Board_Outline.as_slice(), sent.as_slice()) {
                if !re_compile_ok(s2.Board_Outline.as_slice()) {
                    return Err(TransError::MalformedPattern);
                }
                if any_match(s2.Board_Outline.as_slice(), files) {
                    return Ok(s2);
                }
            }
            proof {
                assert(detect_auto(styles, gf, 2) == detect_auto(styles, gf, 3));
            }
            Err(TransError::StyleDetectionFailure)
        },
        EDA::Custom(name) => {
            let ghost styles = all_styles_v();
            let ghost gn = name@;
            let s0 = jlc_style();
            if bytes_eq(s0.EDA_Name.as_slice(), name.as_slice()) {
                return Ok(s0);
            }
            proof {
                assert(detect_custom(styles, gn, 0) == detect_custom(styles, gn, 1));
            }
            let s1 = kicad_style();
            if bytes_eq(s1.EDA_Name.as_slice(), name.as_slice()) {
                return Ok(s1);
            }
            proof {
                assert(detect_custom(styles, gn, 1) == detect_custom(styles, gn, 2));
            }
            let s2 = protel_style();
            if bytes_eq(s2.EDA_Name.as_slice(), name.as_slice()) {
                return Ok(s2);
            }
            proof {
                assert(detect_custom(styles, gn, 2) == detect_custom(styles, gn, 3));
            }
            Err(TransError::StyleDetectionFailure)
        },
    }
}

/// One destination candidate: the assigned layer key and the canonical
/// destination file name.
pub struct ClassifiedFile {
    pub key: LayerKey,
    pub dest: Vec<u8>,
}

/// Mathematical view of a destination candidate.
#[verifier::ext_equal]
pub struct ClassV {
    pub key: LayerKey,
    pub dest: Seq<u8>,
}

impl View for ClassifiedFile {
    type V = ClassV;

    open spec fn view(&self) -> ClassV {
        ClassV { key: self.key, dest: self.dest@ }
    }
}

impl DeepView for ClassifiedFile {
    type V = ClassV;

    open spec fn deep_view(&self) -> ClassV {
        self@
    }
}

/// `"{0}"`, the template's first numeric slot.
pub open spec fn tok_slot0() -> Seq<u8> {
    seq![('{' as u8), ('0' as u8), ('}' as u8)]
}

/// `"{1}"`, the template's second numeric slot.
pub open spec fn tok_slot1() -> Seq<u8> {
    seq![('{' as u8), ('1' as u8), ('}' as u8)]
}

/// The inner-layer destination: the canonical template with the canonical
/// rendering of the file name's first digit run substituted into both slots.
pub open spec fn inner_dest(canon: FileNameV, name: Seq<u8>) -> Seq<u8> {
    let num = dec_str(dec_val(first_digit_run(name)));
    replace_all(replace_all(canon.inner_layer_template, tok_slot0(), num), tok_slot1(), num)
}

/// The destination a match under key `k` produces: the canonical name for the
/// key; the filled template for an inner layer (no digit run is a hard
/// error); no candidate for a key without a canonical name.
pub open spec fn dest_for(canon: FileNameV, k: LayerKey, name: Seq<u8>) -> Result<
    Option<Seq<u8>>,
    TransError,
> {
    if k == LayerKey::InnerLayer {
        if first_digit_run(name).len() == 0 {
            Err(TransError::NumericTokenMissing)
        } else {
            Ok(Some(inner_dest(canon, name)))
        }
    } else {
        Ok(get_spec(canon, k))
    }
}

/// Classification of one key's pattern list from index `pi` on: a sentinel
/// pattern is skipped; every other pattern is compiled (an invalid one
/// aborts), and every match appends its destination candidate.
pub open spec fn classify_pats(
    canon: FileNameV,
    k: LayerKey,
    pats: Seq<Seq<u8>>,
    name: Seq<u8>,
    pi: int,
) -> Result<Seq<ClassV>, TransError>
    decreases pats.len() - pi,
{
    if pi < 0 || pi >= pats.len() {
        Ok(Seq::<ClassV>::empty())
    } else {
        let p = pats[pi];
        if p == sentinel_pattern() {
            classify_pats(canon, k, pats, name, pi + 1)
        } else if !regex_valid(p) {
            Err(TransError::MalformedPattern)
        } else if regex_matches(p, name) {
            match dest_for(canon, k, name) {
                Err(e) => Err(e),
                Ok(None) => classify_pats(canon, k, pats, name, pi + 1),
                Ok(Some(d)) => match classify_pats(canon, k, pats, name, pi + 1) {
                    Err(e) => Err(e),
                    Ok(rest) => Ok(seq![ClassV { key: k, dest: d }] + rest),
                },
            }
        } else {
            classify_pats(canon, k, pats, name, pi + 1)
        }
    }
}

/// Classification over the keys from index `ki` on, in canonical key order.
pub open spec fn classify_keys(s: FileNameV, canon: FileNameV, name: Seq<u8>, ki: int) -> Result<
    Seq<ClassV>,
    TransError,
>
    decreases key_order().len() - ki,
{
    if ki < 0 || ki >= key_order().len() {
        Ok(Seq::<ClassV>::empty())
    } else {
        let k = key_order()[ki];
        match classify_pats(canon, k, patterns_of(s, k), name, 0) {
            Err(e) => Err(e),
            Ok(here) => match classify_keys(s, canon, name, ki + 1) {
                Err(e) => Err(e),
                Ok(rest) => Ok(here + rest),
            },
        }
    }
}

/// Full classification of one file name under a detected style: all
/// destination candidates, in key order, destinations in the canonical style.
pub open spec fn classify_spec(s: FileNameV, name: Seq<u8>) -> Result<Seq<ClassV>, TransError> {
    classify_keys(s, jlc_style_v(), name, 0)
}

/// The file name's first digit run, executable (`None` when it has no digit).
pub fn first_digit_run_exec(name: &[u8]) -> (r: Option<Vec<u8>>)
    ensures
        match r {
            Some(v) => v@ == first_digit_run(name@) && v@.len() >= 1 && is_digit_seq(v@),
            None => first_digit_run(name@).len() == 0,
        },
{
    let mut i: usize = 0;
    while i < name.len() && !crate::text::byte_is_digit(name[i])
        invariant
            0 <= i <= name@.len(),
            first_digit_pos(name@, 0) == first_digit_pos(name@, i as int),
        decreases name@.len() - i,
    {
        proof {
            assert(first_digit_pos(name@, i as int) == first_digit_pos(name@, i + 1));
        }
        i = i + 1;
    }
    if i == name.len() {
        proof {
            assert(first_digit_pos(name@, i as int) == name@.len());
            assert(first_digit_run(name@) =~= Seq::<u8>::empty());
        }
        return None;
    }
    proof {
        assert(first_digit_pos(name@, i as int) == i);
        lemma_run_props(name@, i as int);
    }
    let run = digit_run_at(name, i);
    proof {
        assert(run >= 1);
    }
    let v = copy_bytes(&name[i..(i + run)]);
    proof {
        assert(v@ =~= first_digit_run(name@));
    }
    Some(v)
}

/// `"{0}"` as a byte vector.
fn tok_slot0_vec() -> (r: Vec<u8>)
    ensures
        r@ == tok_slot0(),
{
    let mut v: Vec<u8> = Vec::new();
    v.push('{' as u8);
    v.push('0' as u8);
    v.push('}' as u8);
    assert(v@ =~= tok_slot0());
    v
}

/// `"{1}"` as a byte vector.
fn tok_slot1_vec() -> (r: Vec<u8>)
    ensures
        r@ == tok_slot1(),
{
    let mut v: Vec<u8> = Vec::new();
    v.push('{' as u8);
    v.push('1' as u8);
    v.push('}' as u8);
    assert(v@ =~= tok_slot1());
    v
}

/// Concatenation result used by the classification loop invariants.
pub open spec fn ok_concat(a: Seq<ClassV>, r: Result<Seq<ClassV>, TransError>) -> Result<
    Seq<ClassV>,
    TransError,
> {
    match r {
        Ok(s) => Ok(a + s),
        Err(e) => Err(e),
    }
}

/// Intermediate classification value used by the loop invariants: the rest
/// of the current key's patterns, then the remaining keys.
pub open spec fn pats_then_keys(
    s: FileNameV,
    k: LayerKey,
    pats: Seq<Seq<u8>>,
    name: Seq<u8>,
    pi: int,
    ki: int,
) -> Result<Seq<ClassV>, TransError> {
    match classify_pats(jlc_style_v(), k, pats, name, pi) {
        Err(e) => Err(e),
        Ok(here) => match classify_keys(s, jlc_style_v(), name, ki) {
            Err(e) => Err(e),
            Ok(rest) => Ok(here + rest),
        },
    }
}

/// Classify one file name under a detected style: every destination
/// candidate it yields, exactly as `classify_spec` describes.
pub fn classify_file(style: &FileName, name: &[u8]) -> (r: Result<Vec<ClassifiedFile>, TransError>)
    ensures
        match r {
            Ok(v) => classify_spec(style@, name@) == Ok::<Seq<ClassV>, TransError>(v.deep_view()),
            Err(e) => classify_spec(style@, name@) == Err::<Seq<ClassV>, TransError>(e),
        },
{
    let ghost gs = style@;
    let ghost gn = name@;
    let canon = jlc_style();
    let sent = sentinel_pattern_vec();
    let entries = style.entries();
    let mut out: Vec<ClassifiedFile> = Vec::new();
    let mut ki: usize = 0;
    proof {
        assert(out.deep_view() =~~= Seq::<ClassV>::empty());
    }
    while ki < entries.len()
        invariant
            0 <= ki <= key_order().len(),
            entries@.len() == key_order().len(),
            canon@ == jlc_style_v(),
            forall|i: int|
                0 <= i < entries@.len() ==> (#[trigger] entries@[i]).0 == key_order()[i]
                    && entries@[i].1.deep_view() == patterns_of(gs, key_order()[i]),
            classify_spec(gs, gn) == ok_concat(
                out.deep_view(),
                classify_keys(gs, jlc_style_v(), gn, ki as int),
            ),
        decreases key_order().len() - ki,
    {
        let ghost k = key_order()[ki as int];
        let ghost pats = patterns_of(gs, k);
        let kp = &entries[ki];
        let key = kp.0;
        let mut pi: usize = 0;
        proof {
            // unfold one key of classify_keys into pats_then_keys
            assert(classify_keys(gs, jlc_style_v(), gn, ki as int) == pats_then_keys(
                gs,
                k,
                pats,
                gn,
                0,
                ki as int + 1,
            ));
        }
        while pi < kp.1.len()
            invariant
                0 <= ki < key_order().len(),
                0 <= pi <= pats.len(),
                canon@ == jlc_style_v(),
                k == key_order()[ki as int],
                key == k,
                pats == patterns_of(gs, k),
                kp.1.deep_view() == pats,
                classify_spec(gs, gn) == ok_concat(
                    out.deep_view(),
                    pats_then_keys(gs, k, pats, gn, pi as int, ki as int + 1),
                ),
            decreases pats.len() - pi,
        {
            let p = &kp.1[pi];
            proof {
                assert(p@ =~= pats[pi as int]);
            }
            if bytes_eq(p.as_slice(), sent.as_slice()) {
                // a sentinel slot: never compiled, matches nothing
                proof {
                    assert(classify_pats(jlc_style_v(), k, pats, gn, pi as int) == classify_pats(
                        jlc_style_v(),
                        k,
                        pats,
                        gn,
                        pi as int + 1,
                    ));
                }
                pi = pi + 1;
                continue;
            }
            if !re_compile_ok(p.as_slice()) {
                proof {
                    assert(classify_pats(jlc_style_v(), k, pats, gn, pi as int)
                        == Err::<Seq<ClassV>, TransError>(TransError::MalformedPattern));
                }
                return Err(TransError::MalformedPattern);
            }
            if re_is_match(p.as_slice(), name) {
                match key {
                    LayerKey::InnerLayer => {
                        // extract the first digit run and fill the template
                        match first_digit_run_exec(name) {
                            None => {
                                proof {
                                    assert(classify_pats(jlc_style_v(), k, pats, gn, pi as int)
                                        == Err::<Seq<ClassV>, TransError>(
                                        TransError::NumericTokenMissing,
                                    ));
                                }
                                return Err(TransError::NumericTokenMissing);
                            },
                            Some(run) => {
                                let num = canonical_num(run.as_slice());
                                let t0 = tok_slot0_vec();
                                let t1 = tok_slot1_vec();
                                let step1 = replace_all_bytes(
                                    canon.InnerLayer_Templete.as_slice(),
                                    t0.as_slice(),
                                    num.as_slice(),
                                );
                                let d = replace_all_bytes(
                                    step1.as_slice(),
                                    t1.as_slice(),
                                    num.as_slice(),
                                );
                                let ghost dv = d@;
                                proof {
                                    assert(dv == inner_dest(jlc_style_v(), gn));
                                    assert(dest_for(jlc_style_v(), k, gn) == Ok::<
                                        Option<Seq<u8>>,
                                        TransError,
                                    >(Some(dv)));
                                }
                                let ghost od = out.deep_view();
                                out.push(ClassifiedFile { key, dest: d });
                                proof {
                                    lemma_classify_push_step(gs, k, pats, gn, pi as int,
                                        ki as int + 1, od, dv);
                                    assert(out.deep_view() =~~= od.push(
                                        ClassV { key: k, dest: dv },
                                    ));
                                }
                            },
                        }
                    },
                    _ => {
                        // keys other than InnerLayer: the canonical name, if any
                        match canon.get(key) {
                            Some(d) => {
                                let ghost dv = d@;
                                proof {
                                    assert(dest_for(jlc_style_v(), k, gn) == Ok::<
                                        Option<Seq<u8>>,
                                        TransError,
                                    >(Some(dv)));
                                }
                                let ghost od = out.deep_view();
                                out.push(ClassifiedFile { key, dest: d });
                                proof {
                                    lemma_classify_push_step(gs, k, pats, gn, pi as int,
                                        ki as int + 1, od, dv);
                                    assert(out.deep_view() =~~= od.push(
                                        ClassV { key: k, dest: dv },
                                    ));
                                }
                            },
                            None => {
                                // no canonical name for this key: no candidate
                                proof {
                                    assert(dest_for(jlc_style_v(), k, gn) == Ok::<
                                        Option<Seq<u8>>,
                                        TransError,
                                    >(None));
                                    assert(classify_pats(jlc_style_v(), k, pats, gn, pi as int)
                                        == classify_pats(jlc_style_v(), k, pats, gn, pi as int + 1));
                                }
                            },
                        }
                    },
                }
            } else {
                proof {
                    assert(classify_pats(jlc_style_v(), k, pats, gn, pi as int) == classify_pats(
                        jlc_style_v(),
                        k,
                        pats,
                        gn,
                        pi as int + 1,
                    ));
                }
            }
            pi = pi + 1;
        }
        proof {
            assert(classify_pats(jlc_style_v(), k, pats, gn, pi as int) == Ok::<
                Seq<ClassV>,
                TransError,
            >(Seq::<ClassV>::empty()));
            let kr = classify_keys(gs, jlc_style_v(), gn, ki as int + 1);
            if kr is Ok {
                assert(Seq::<ClassV>::empty() + kr->Ok_0 =~= kr->Ok_0);
            }
        }
        ki = ki + 1;
    }
    proof {
        assert(classify_keys(gs, jlc_style_v(), gn, ki as int) == Ok::<Seq<ClassV>, TransError>(
            Seq::<ClassV>::empty(),
        ));
        assert(out.deep_view() + Seq::<ClassV>::empty() =~= out.deep_view());
    }
    Ok(out)
}

/// One planned copy of the directory pass: which source file (by index into
/// the listing) is copied under which key to which canonical destination.
pub struct PlannedCopy {
    pub source_index: usize,
    pub key: LayerKey,
    pub dest: Vec<u8>,
}

/// Mathematical view of a planned copy.
#[verifier::ext_equal]
pub struct PlannedCopyV {
    pub source_index: int,
    pub key: LayerKey,
    pub dest: Seq<u8>,
}

impl View for PlannedCopy {
    type V = PlannedCopyV;

    open spec fn view(&self) -> PlannedCopyV {
        PlannedCopyV { source_index: self.source_index as int, key: self.key, dest: self.dest@ }
    }
}

impl DeepView for PlannedCopy {
    type V = PlannedCopyV;

    open spec fn deep_view(&self) -> PlannedCopyV {
        self@
    }
}

/// The candidates of one file, tagged with its index in the listing.
pub open spec fn tag_candidates(i: int, cs: Seq<ClassV>) -> Seq<PlannedCopyV> {
    cs.map_values(
        |c: ClassV| PlannedCopyV { source_index: i, key: c.key, dest: c.dest },
    )
}

/// The whole directory pass from file index `i` on: every file's destination
/// candidates in listing order; the first classification error aborts.
pub open spec fn plan_spec(s: FileNameV, names: Seq<Seq<u8>>, i: int) -> Result<
    Seq<PlannedCopyV>,
    TransError,
>
    decreases names.len() - i,
{
    if i < 0 || i >= names.len() {
        Ok(Seq::<PlannedCopyV>::empty())
    } else {
        match classify_spec(s, names[i]) {
            Err(e) => Err(e),
            Ok(cs) => match plan_spec(s, names, i + 1) {
                Err(e) => Err(e),
                Ok(rest) => Ok(tag_candidates(i, cs) + rest),
            },
        }
    }
}

/// Concatenation result used by the planning loop invariant.
pub open spec fn okp_concat(a: Seq<PlannedCopyV>, r: Result<Seq<PlannedCopyV>, TransError>) -> Result<
    Seq<PlannedCopyV>,
    TransError,
> {
    match r {
        Ok(s) => Ok(a + s),
        Err(e) => Err(e),
    }
}

/// Plan the whole directory pass: classify every file name of the listing and
/// return all planned copies in listing order, exactly as `plan_spec`
/// describes. The caller performs the copies and rewrites in this order.
pub fn plan_directory(style: &FileName, names: &Vec<Vec<u8>>) -> (r: Result<
    Vec<PlannedCopy>,
    TransError,
>)
    ensures
        match r {
            Ok(v) => plan_spec(style@, names.deep_view(), 0) == Ok::<Seq<PlannedCopyV>, TransError>(
                v.deep_view(),
            ),
            Err(e) => plan_spec(style@, names.deep_view(), 0) == Err::<
                Seq<PlannedCopyV>,
                TransError,
            >(e),
        },
{
    let ghost gs = style@;
    let ghost gnames = names.deep_view();
    let mut out: Vec<PlannedCopy> = Vec::new();
    let mut i: usize = 0;
    proof {
        assert(out.deep_view() =~~= Seq::<PlannedCopyV>::empty());
    }
    while i < names.len()
        invariant
            0 <= i <= gnames.len(),
            names.deep_view() == gnames,
            plan_spec(gs, gnames, 0) == okp_concat(out.deep_view(), plan_spec(gs, gnames, i as int)),
        decreases gnames.len() - i,
    {
        proof {
            assert(names[i as int]@ =~= gnames[i as int]);
        }
        match classify_file(style, names[i].as_slice()) {
            Err(e) => {
                return Err(e);
            },
            Ok(cs) => {
                let ghost gcs = cs.deep_view();
                let ghost od0 = out.deep_view();
                let mut j: usize = 0;
                proof {
                    assert(out.deep_view() =~~= od0 + tag_candidates(i as int, gcs.take(0)));
                }
                while j < cs.len()
                    invariant
                        0 <= j <= gcs.len(),
                        cs.deep_view() == gcs,
                        0 <= i < gnames.len(),
                        out.deep_view() =~~= od0 + tag_candidates(i as int, gcs.take(j as int)),
                    decreases gcs.len() - j,
                {
                    proof {
                        assert(cs[j as int]@ =~= gcs[j as int]);
                    }
                    let c = &cs[j];
                    let ghost od = out.deep_view();
                    out.push(
                        PlannedCopy {
                            source_index: i,
                            key: c.key,
                            dest: copy_bytes(c.dest.as_slice()),
                        },
                    );
                    proof {
                        let pv = PlannedCopyV {
                            source_index: i as int,
                            key: gcs[j as int].key,
                            dest: gcs[j as int].dest,
                        };
                        assert(out.deep_view() =~~= od.push(pv));
                        assert(tag_candidates(i as int, gcs.take(j + 1)) =~~= tag_candidates(
                            i as int,
                            gcs.take(j as int),
                        ).push(pv));
                        assert(od0 + tag_candidates(i as int, gcs.take(j as int)).push(pv)
                            =~~= od.push(pv));
                    }
                    j = j + 1;
                }
                proof {
                    assert(gcs.take(j as int) =~= gcs);
                    assert(out.deep_view() =~~= od0 + tag_candidates(i as int, gcs));
                    assert(plan_spec(gs, gnames, i as int) == (match plan_spec(
                        gs,
                        gnames,
                        i as int + 1,
                    ) {
                        Err(e) => Err::<Seq<PlannedCopyV>, TransError>(e),
                        Ok(rest) => Ok::<Seq<PlannedCopyV>, TransError>(
                            tag_candidates(i as int, gcs) + rest,
                        ),
                    }));
                    if plan_spec(gs, gnames, i as int + 1) is Ok {
                        let rest = plan_spec(gs, gnames, i as int + 1)->Ok_0;
                        assert(od0 + (tag_candidates(i as int, gcs) + rest) =~= out.deep_view()
                            + rest);
                    }
                }
            },
        }
        i = i + 1;
    }
    proof {
        assert(plan_spec(gs, gnames, i as int) == Ok::<Seq<PlannedCopyV>, TransError>(
            Seq::<PlannedCopyV>::empty(),
        ));
        assert(out.deep_view() + Seq::<PlannedCopyV>::empty() =~= out.deep_view());
    }
    Ok(out)
}

/// One push step of the classification loop: appending the candidate of a
/// matching pattern commutes with the remaining classification.
proof fn lemma_classify_push_step(
    s: FileNameV,
    k: LayerKey,
    pats: Seq<Seq<u8>>,
    name: Seq<u8>,
    pi: int,
    ki: int,
    od: Seq<ClassV>,
    dv: Seq<u8>,
)
    requires
        0 <= pi < pats.len(),
        pats[pi] != sentinel_pattern(),
        regex_valid(pats[pi]),
        regex_matches(pats[pi], name),
        dest_for(jlc_style_v(), k, name) == Ok::<Option<Seq<u8>>, TransError>(Some(dv)),
    ensures
        ok_concat(od, pats_then_keys(s, k, pats, name, pi, ki)) == ok_concat(
            od.push(ClassV { key: k, dest: dv }),
            pats_then_keys(s, k, pats, name, pi + 1, ki),
        ),
{
    let cv = ClassV { key: k, dest: dv };
    let tail = classify_pats(jlc_style_v(), k, pats, name, pi + 1);
    assert(classify_pats(jlc_style_v(), k, pats, name, pi) == (match tail {
        Err(e) => Err::<Seq<ClassV>, TransError>(e),
        Ok(rest) => Ok::<Seq<ClassV>, TransError>(seq![cv] + rest),
    }));
    let kr = classify_keys(s, jlc_style_v(), name, ki);
    if tail is Ok && kr is Ok {
        assert(od + (seq![cv] + tail->Ok_0 + kr->Ok_0) =~= od.push(cv) + (tail->Ok_0 + kr->Ok_0));
    }
}

} // verus!
