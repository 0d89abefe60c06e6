//! Tests of style detection, classification and destination naming.
use transjlc::classify::{classify_file, detect_style};
use transjlc::errors::TransError;
use transjlc::styles::{jlc_style, kicad_style, protel_style, FileName, LayerKey, EDA};

fn custom_style(inner_pattern: &[u8], npth_pattern: &[u8]) -> FileName {
    FileName {
        EDA_Name: b"Custom".to_vec(),
        NPTH_Through: npth_pattern.to_vec(),
        PTH_Through: b"zzznever1".to_vec(),
        PTH_Through_Via: b"zzznever2".to_vec(),
        Bottom_Silkscreen: b"zzznever3".to_vec(),
        Bottom_Soldermask: b"zzznever4".to_vec(),
        Bottom_PasteMask: b"zzznever5".to_vec(),
        Bottom_Layer: b"zzznever6".to_vec(),
        Top_Silkscreen: b"zzznever7".to_vec(),
        Top_Soldermask: b"zzznever8".to_vec(),
        Top_PasteMask: b"zzznever9".to_vec(),
        Top_Layer: b"zzznever10".to_vec(),
        Board_Outline: b"zzznever11".to_vec(),
        InnerLayer: inner_pattern.to_vec(),
        InnerLayer_Templete: b"In{0}_Cu.g{1}".to_vec(),
        Other: vec![b"zzznever12".to_vec()],
    }
}

#[test]
fn detect_auto_picks_kicad_by_board_outline() {
    let files = vec![
        b"/work/in/board-Edge.Cuts.gbr".to_vec(),
        b"/work/in/board-F_Cu.gbr".to_vec(),
    ];
    let style = detect_style(&EDA::Auto, &files).unwrap();
    assert_eq!(style.EDA_Name, b"KiCAD".to_vec());
}

#[test]
fn detect_auto_no_match_fails() {
    let files = vec![b"/work/in/unrelated.bin".to_vec()];
    let r = detect_style(&EDA::Auto, &files);
    assert_eq!(r.err().unwrap(), TransError::StyleDetectionFailure);
}

#[test]
fn detect_named_unregistered_fails() {
    let files: Vec<Vec<u8>> = vec![];
    let r = detect_style(&EDA::Custom(b"NoSuchEda".to_vec()), &files);
    assert_eq!(r.err().unwrap(), TransError::StyleDetectionFailure);
}

#[test]
fn detect_named_registered_succeeds() {
    let files: Vec<Vec<u8>> = vec![];
    let style = detect_style(&EDA::Custom(b"Protel".to_vec()), &files).unwrap();
    assert_eq!(style.EDA_Name, b"Protel".to_vec());
}

#[test]
fn detect_fixed_kicad() {
    let files: Vec<Vec<u8>> = vec![];
    let style = detect_style(&EDA::Kicad, &files).unwrap();
    assert_eq!(style.EDA_Name, b"KiCAD".to_vec());
}

#[test]
fn detect_fixed_protel() {
    let files: Vec<Vec<u8>> = vec![];
    let style = detect_style(&EDA::Protel, &files).unwrap();
    assert_eq!(style.EDA_Name, b"Protel".to_vec());
}

#[test]
fn classify_top_copper_to_canonical_name() {
    let style = kicad_style();
    let r = classify_file(&style, b"board-F_Cu.gbr").unwrap();
    assert_eq!(r.len(), 1);
    assert_eq!(r[0].key, LayerKey::TopLayer);
    assert_eq!(r[0].dest, b"Gerber_TopLayer.GTL".to_vec());
}

#[test]
fn classify_drill_plated_to_canonical_name() {
    let style = kicad_style();
    let r = classify_file(&style, b"board-PTH.drl").unwrap();
    assert_eq!(r.len(), 1);
    assert_eq!(r[0].key, LayerKey::DrillPlated);
    assert_eq!(r[0].dest, b"Drill_PTH_Through.DRL".to_vec());
    assert!(transjlc::styles::is_drill_key(r[0].key));
    assert!(!transjlc::styles::is_drill_key(LayerKey::TopLayer));
}

#[test]
fn classify_inner_layer_fills_both_slots() {
    let style = kicad_style();
    let r = classify_file(&style, b"In3_Cu.g3").unwrap();
    assert_eq!(r.len(), 1);
    assert_eq!(r[0].key, LayerKey::InnerLayer);
    assert_eq!(r[0].dest, b"Gerber_InnerLayer3.G3".to_vec());
}

#[test]
fn classify_inner_layer_strips_leading_zeros() {
    let style = kicad_style();
    let r = classify_file(&style, b"In07_Cu.g7").unwrap();
    assert_eq!(r.len(), 1);
    assert_eq!(r[0].dest, b"Gerber_InnerLayer7.G7".to_vec());
}

#[test]
fn classify_unmatched_name_yields_nothing() {
    let style = kicad_style();
    let r = classify_file(&style, b"README.md").unwrap();
    assert_eq!(r.len(), 0);
}

#[test]
fn classify_missing_numeric_token_is_an_error() {
    let style = custom_style(b"INNER", b"zzznever0");
    let r = classify_file(&style, b"INNERx");
    assert_eq!(r.err().unwrap(), TransError::NumericTokenMissing);
}

#[test]
fn classify_malformed_pattern_is_an_error() {
    let style = custom_style(b"INNER", b"(");
    let r = classify_file(&style, b"whatever");
    assert_eq!(r.err().unwrap(), TransError::MalformedPattern);
}

#[test]
fn classify_protel_empty_drill_patterns_match_everything() {
    let style = protel_style();
    let r = classify_file(&style, b"readme.txt").unwrap();
    // the three empty drill patterns match any name; the `.txt` entry under
    // `Other` has no canonical destination and yields no candidate
    assert_eq!(r.len(), 3);
    assert_eq!(r[0].key, LayerKey::DrillNonPlated);
    assert_eq!(r[0].dest, b"Drill_NPTH_Through.DRL".to_vec());
    assert_eq!(r[1].key, LayerKey::DrillPlated);
    assert_eq!(r[2].key, LayerKey::DrillPlatedVia);
    assert!(r.iter().all(|c| c.key != LayerKey::Other));
}

#[test]
fn classification_is_deterministic() {
    let style = kicad_style();
    let a = classify_file(&style, b"board-B_Mask.gbr").unwrap();
    let b = classify_file(&style, b"board-B_Mask.gbr").unwrap();
    assert_eq!(a.len(), b.len());
    for (x, y) in a.iter().zip(b.iter()) {
        assert_eq!(x.key, y.key);
        assert_eq!(x.dest, y.dest);
    }
}

#[test]
fn filename_get_returns_canonical_names() {
    let canon = jlc_style();
    assert_eq!(canon.get(LayerKey::TopLayer).unwrap(), b"Gerber_TopLayer.GTL".to_vec());
    assert_eq!(canon.get(LayerKey::BoardOutline).unwrap(), b"Gerber_BoardOutlineLayer.GKO".to_vec());
    assert_eq!(canon.get(LayerKey::DrillNonPlated).unwrap(), b"Drill_NPTH_Through.DRL".to_vec());
    assert!(canon.get(LayerKey::Other).is_none());
}

#[test]
fn directory_plan_covers_every_file_in_order() {
    let style = kicad_style();
    let names = vec![
        b"board-Edge.Cuts.gbr".to_vec(),
        b"board-F_Cu.gbr".to_vec(),
        b"notes.pdf".to_vec(),
        b"board-PTH.drl".to_vec(),
    ];
    let plan = transjlc::classify::plan_directory(&style, &names).unwrap();
    assert_eq!(plan.len(), 3);
    assert_eq!(plan[0].source_index, 0);
    assert_eq!(plan[0].key, LayerKey::BoardOutline);
    assert_eq!(plan[0].dest, b"Gerber_BoardOutlineLayer.GKO".to_vec());
    assert_eq!(plan[1].source_index, 1);
    assert_eq!(plan[1].dest, b"Gerber_TopLayer.GTL".to_vec());
    assert_eq!(plan[2].source_index, 3);
    assert_eq!(plan[2].key, LayerKey::DrillPlated);
}

#[test]
fn classify_skips_sentinel_pattern() {
    // KiCAD marks its plated-via slot with the sentinel "null": a file name
    // containing "null" must not be classified under that key
    let style = kicad_style();
    let r = classify_file(&style, b"null-board.gbr").unwrap();
    assert_eq!(r.len(), 0);
}

#[test]
fn detect_auto_skips_sentinel_outline() {
    // Protel's board-outline slot is the sentinel "null": a path containing
    // "null" must not auto-select Protel
    let files = vec![b"/work/in/null.txt".to_vec()];
    let r = detect_style(&EDA::Auto, &files);
    assert_eq!(r.err().unwrap(), TransError::StyleDetectionFailure);
}

#[test]
fn classify_empty_name_yields_nothing_under_kicad() {
    let style = kicad_style();
    let r = classify_file(&style, b"").unwrap();
    assert_eq!(r.len(), 0);
}

#[test]
fn entries_come_in_canonical_key_order() {
    let style = kicad_style();
    let entries = style.entries();
    assert_eq!(entries.len(), 14);
    assert_eq!(entries[0].0, LayerKey::DrillNonPlated);
    assert_eq!(entries[0].1, vec![b"-NPTH.drl".to_vec()]);
    assert_eq!(entries[12].0, LayerKey::InnerLayer);
    assert_eq!(entries[13].0, LayerKey::Other);
    assert_eq!(entries[13].1, vec![b"null".to_vec()]);
}
