//! Tests of the watermark engine, the provenance header and the byte
//! utilities. Expected hash suffixes are computed with the md-5 crate.
use md5::{Digest, Md5};

use transjlc::header::inject_header;
use transjlc::jlc::JLC;
use transjlc::styles::EDA;
use transjlc::text::{
    canonical_num, join_lines_bytes, replace_all_bytes, split_lines_bytes, u32_to_dec,
};
use transjlc::watermark::renum_line_exec;

fn fresh_jlc() -> JLC {
    JLC::new(String::from("in"), String::from("out"), EDA::Auto)
}

fn suffix_of(bytes: &[u8]) -> u32 {
    let digest = Md5::digest(bytes);
    (digest[15] as u32) % 100
}

#[test]
fn content_over_the_size_limit_is_unchanged() {
    let jlc = fresh_jlc();
    let content = vec![b'x'; 30_000_001];
    let out = jlc.add_hash_aperture_with(content.clone(), 0, 50);
    assert_eq!(out, content);
}

#[test]
fn content_at_the_size_limit_is_watermarked() {
    let jlc = fresh_jlc();
    let content = vec![b'x'; 30_000_000];
    let out = jlc.add_hash_aperture_with(content.clone(), 0, 50);
    assert_ne!(out, content);
    assert!(out.len() > content.len());
    assert!(out.starts_with(&content));
}

#[test]
fn ignore_hash_suppresses_the_watermark() {
    let mut jlc = fresh_jlc();
    jlc.ignore_hash = true;
    let content = b"%MOMM*%\nG04 body*".to_vec();
    let out = jlc.add_hash_aperture_with(content.clone(), 1, 23);
    assert_eq!(out, content);
}

#[test]
fn watermark_without_apertures_appends_target_ten() {
    let jlc = fresh_jlc();
    // no %MO line and no aperture: the synthesized directive lands at the end
    let content = b"X100Y100D02*\nX200Y200D01*".to_vec();
    let ss = suffix_of(&content);
    let out = jlc.add_hash_aperture_with(content.clone(), 2, 34);
    let expected = format!(
        "X100Y100D02*\nX200Y200D01*\n%ADD10C,0.34{:02}*%",
        ss
    );
    assert_eq!(out, expected.into_bytes());
}

#[test]
fn watermark_inserts_after_units_before_graphics() {
    let jlc = fresh_jlc();
    let content = b"%MOMM*%\nG04 body*\nX1Y1D02*".to_vec();
    // no aperture-define directives: the renumbered text is the content itself
    let ss = suffix_of(&content);
    let out = jlc.add_hash_aperture_with(content.clone(), 0, 50);
    let expected = format!("%MOMM*%\n%ADD10C,0.50{:02}*%\nG04 body*\nX1Y1D02*", ss);
    assert_eq!(out, expected.into_bytes());
}

#[test]
fn watermark_with_reference_renumbers_and_substitutes() {
    let jlc = fresh_jlc();
    let content = b"%ADD10C,0.10*%\n%ADD11C,0.11*%\n%ADD12C,0.12*%\n%ADD13C,0.13*%\n%ADD14C,0.14*%\n%ADD15C,0.15*%\n%ADD16C,0.16*%\nG04 body*".to_vec();
    // seven apertures, draw 0: the reference is the sixth (number 15); 15 and
    // 16 shift up by one, and the hash is taken over the renumbered text
    let renumbered = b"%ADD10C,0.10*%\n%ADD11C,0.11*%\n%ADD12C,0.12*%\n%ADD13C,0.13*%\n%ADD14C,0.14*%\n%ADD16C,0.15*%\n%ADD17C,0.16*%\nG04 body*".to_vec();
    let ss = suffix_of(&renumbered);
    let out = jlc.add_hash_aperture_with(content, 0, 7);
    let expected = format!(
        "%ADD10C,0.10*%\n%ADD11C,0.11*%\n%ADD12C,0.12*%\n%ADD13C,0.13*%\n%ADD14C,0.14*%\n%ADD15C,0.07{:02}*%\n%ADD16C,0.15*%\n%ADD17C,0.16*%\nG04 body*",
        ss
    );
    assert_eq!(out, expected.into_bytes());
}

#[test]
fn watermark_with_few_apertures_takes_the_last_as_reference() {
    let jlc = fresh_jlc();
    let content = b"%ADD20C,1.5*%\n%ADD21R,2X3*%\nG04 body*".to_vec();
    // two apertures: the reference is the last (21); nothing shifts below it,
    // 21 itself is the target so it moves to 22
    let renumbered = b"%ADD20C,1.5*%\n%ADD22R,2X3*%\nG04 body*".to_vec();
    let ss = suffix_of(&renumbered);
    let out = jlc.add_hash_aperture_with(content, 3, 41);
    // the reference's size field (the first ",<digits/dots>") is replaced
    let expected = format!(
        "%ADD20C,1.5*%\n%ADD21R,0.41{:02}X3*%\n%ADD22R,2X3*%\nG04 body*",
        ss
    );
    assert_eq!(out, expected.into_bytes());
}

#[test]
fn hash_suffix_is_stable_for_equal_inputs() {
    let jlc = fresh_jlc();
    let content = b"%MOMM*%\nG04 twice*".to_vec();
    let a = jlc.add_hash_aperture_with(content.clone(), 4, 99);
    let b = jlc.add_hash_aperture_with(content.clone(), 4, 99);
    assert_eq!(a, b);
}

#[test]
fn import_flag_changes_the_hash_input() {
    let mut jlc = fresh_jlc();
    let content = b"%MOMM*%\nG04 imported*".to_vec();
    jlc.is_imported_pcb_doc = true;
    let out = jlc.add_hash_aperture_with(content.clone(), 0, 12);
    let mut marked = b"494d".to_vec();
    marked.extend_from_slice(&content);
    let ss = suffix_of(&marked);
    let expected = format!("%MOMM*%\n%ADD10C,0.12{:02}*%\nG04 imported*", ss);
    assert_eq!(out, expected.into_bytes());
}

#[test]
fn zero_candidate_size_falls_back() {
    let jlc = fresh_jlc();
    // pick content whose hash suffix is 00 so that cc = 0 gives "0.0000"
    let mut content = b"G04 seed*".to_vec();
    let mut tries = 0u32;
    while suffix_of(&content) != 0 && tries < 2000 {
        content.push(b'x');
        tries += 1;
    }
    assert_eq!(suffix_of(&content), 0, "no zero-suffix content found");
    let out = jlc.add_hash_aperture_with(content.clone(), 0, 0);
    let mut expected = content.clone();
    expected.extend_from_slice(b"\n%ADD10C,0.0100*%");
    assert_eq!(out, expected);
}

#[test]
fn fresh_randomness_stays_in_range() {
    let jlc = fresh_jlc();
    let content = b"G04 body*".to_vec();
    let out = jlc.add_hash_aperture_to_gerber(content.clone());
    let ss = suffix_of(&content);
    let prefix = b"G04 body*\n%ADD10C,0.".to_vec();
    assert!(out.starts_with(&prefix));
    assert!(out.ends_with(b"*%"));
    let digits = &out[prefix.len()..out.len() - 2];
    assert_eq!(digits.len(), 4);
    assert!(digits.iter().all(|b| b.is_ascii_digit()));
    let suffix_digits = std::str::from_utf8(&digits[2..]).unwrap();
    assert_eq!(suffix_digits.parse::<u32>().unwrap(), ss);
}

#[test]
fn watermark_of_empty_content_appends_one_aperture_line() {
    let jlc = fresh_jlc();
    let ss = suffix_of(b"");
    let out = jlc.add_hash_aperture_with(Vec::new(), 0, 42);
    let expected = format!("\n%ADD10C,0.42{:02}*%", ss);
    assert_eq!(out, expected.into_bytes());
}

#[test]
fn renumbering_shifts_only_at_or_above_target() {
    assert_eq!(renum_line_exec(b"%ADD10C,0.1*%", 10), b"%ADD11C,0.1*%".to_vec());
    assert_eq!(renum_line_exec(b"%ADD09C,0.1*%", 10), b"%ADD09C,0.1*%".to_vec());
    assert_eq!(renum_line_exec(b"%ADD9999C,9*%", 10), b"%ADD9999C,9*%".to_vec());
    assert_eq!(renum_line_exec(b"G54D12*", 11), b"G54D13*".to_vec());
    assert_eq!(renum_line_exec(b"X1Y1D02*", 10), b"X1Y1D02*".to_vec());
}

#[test]
fn renumbering_keeps_distinct_numbers_distinct() {
    let lines: Vec<&[u8]> = vec![b"%ADD18C,1*%", b"%ADD19C,2*%", b"%ADD21C,3*%"];
    let out: Vec<Vec<u8>> = lines.iter().map(|l| renum_line_exec(l, 19)).collect();
    assert_eq!(out[0], b"%ADD18C,1*%".to_vec());
    assert_eq!(out[1], b"%ADD20C,2*%".to_vec());
    assert_eq!(out[2], b"%ADD22C,3*%".to_vec());
}

#[test]
fn normalize_line_endings_unifies_to_crlf() {
    let jlc = fresh_jlc();
    let out = jlc.normalize_line_endings(b"a\r\nb\nc".to_vec());
    assert_eq!(out, b"a\r\nb\r\nc".to_vec());
}

#[test]
fn header_injection_keeps_content_unmodified() {
    let out = inject_header(b"X1*\r\nX2*", b"2024-01-02 03:04:05");
    let expected = b"G04 EasyEDA Pro v2.2.42.2, 2024-01-02 03:04:05*\nG04 Gerber Generator version 0.3*\nX1*\r\nX2*".to_vec();
    assert_eq!(out, expected);
}

#[test]
fn newline_unification_is_a_separate_explicit_step() {
    let out = transjlc::header::unify_newlines(b"X1*\r\nX2*");
    assert_eq!(out, b"X1*\nX2*".to_vec());
}

#[test]
fn header_injection_with_wall_clock_keeps_the_shape() {
    let out = transjlc::header::inject_header_now(b"X1*");
    assert!(out.starts_with(b"G04 EasyEDA Pro v2.2.42.2, "));
    let text = String::from_utf8(out.clone()).unwrap();
    assert!(text.contains("*\nG04 Gerber Generator version 0.3*\n"));
    assert!(out.ends_with(b"X1*"));
}

#[test]
fn full_layer_rewrite_composes_header_and_watermark() {
    let jlc = fresh_jlc();
    let content = b"X1Y1D02*".to_vec();
    let ts = b"2024-01-02 03:04:05";
    let headed = inject_header(&content, ts);
    let ss = suffix_of(&headed);
    let out = jlc.process_layer_content_with(content, ts, 1, 25);
    // the header's own lines start with 'G', but there is no %MO line, so the
    // synthesized aperture goes to the end
    let mut expected = headed.clone();
    expected.extend_from_slice(format!("\n%ADD10C,0.25{:02}*%", ss).as_bytes());
    assert_eq!(out, expected);
}

#[test]
fn decimal_rendering_has_no_leading_zeros() {
    assert_eq!(u32_to_dec(0), b"0".to_vec());
    assert_eq!(u32_to_dec(7), b"7".to_vec());
    assert_eq!(u32_to_dec(1234), b"1234".to_vec());
    assert_eq!(canonical_num(b"007"), b"7".to_vec());
    assert_eq!(canonical_num(b"000"), b"0".to_vec());
    assert_eq!(canonical_num(b"42"), b"42".to_vec());
}

#[test]
fn replace_all_is_leftmost_and_complete() {
    assert_eq!(replace_all_bytes(b"aXbXc", b"X", b"YZ"), b"aYZbYZc".to_vec());
    assert_eq!(replace_all_bytes(b"aaa", b"aa", b"b"), b"ba".to_vec());
    assert_eq!(replace_all_bytes(b"none", b"X", b"Y"), b"none".to_vec());
}

#[test]
fn split_and_join_round_trip() {
    let content = b"a\nb\n\nc".to_vec();
    let lines = split_lines_bytes(&content);
    assert_eq!(lines.len(), 4);
    assert_eq!(lines[2], b"".to_vec());
    assert_eq!(join_lines_bytes(&lines), content);
}

#[test]
fn jlc_new_starts_clean() {
    let jlc = fresh_jlc();
    assert_eq!(jlc.path, "in");
    assert_eq!(jlc.output_path, "out");
    assert!(jlc.process_path.is_empty());
    assert!(!jlc.ignore_hash);
    assert!(!jlc.is_imported_pcb_doc);
}
