//! The style registry: the canonical layer keys, the naming-style table
//! (recognition patterns per key, plus the output template), and the three
//! built-in styles. All names and patterns are byte strings.
#![verifier::loop_isolation(false)]
#![allow(non_snake_case)]
use vstd::prelude::*;
use vstd::string::*;

verus! {

/// The closed set of canonical layer keys.
#[derive(Clone, Copy, PartialEq, Eq, Structural, Debug)]
pub enum LayerKey {
    DrillNonPlated,
    DrillPlated,
    DrillPlatedVia,
    BottomSilkscreen,
    BottomSoldermask,
    BottomPasteMask,
    BottomLayer,
    TopSilkscreen,
    TopSoldermask,
    TopPasteMask,
    TopLayer,
    BoardOutline,
    InnerLayer,
    Other,
}

/// Mathematical view of a naming style.
#[verifier::ext_equal]
pub struct FileNameV {
    pub eda_name: Seq<u8>,
    pub npth_through: Seq<u8>,
    pub pth_through: Seq<u8>,
    pub pth_through_via: Seq<u8>,
    pub bottom_silkscreen: Seq<u8>,
    pub bottom_soldermask: Seq<u8>,
    pub bottom_pastemask: Seq<u8>,
    pub bottom_layer: Seq<u8>,
    pub top_silkscreen: Seq<u8>,
    pub top_soldermask: Seq<u8>,
    pub top_pastemask: Seq<u8>,
    pub top_layer: Seq<u8>,
    pub board_outline: Seq<u8>,
    pub inner_layer: Seq<u8>,
    pub inner_layer_template: Seq<u8>,
    pub other: Seq<Seq<u8>>,
}

/// A naming style: one recognition pattern (or, under `Other`, several) per
/// canonical layer key, the style's identifier, and its inner-layer output
/// template with two numeric slots.
pub struct FileName {
    pub EDA_Name: Vec<u8>,
    pub NPTH_Through: Vec<u8>,
    pub PTH_Through: Vec<u8>,
    pub PTH_Through_Via: Vec<u8>,
    pub Bottom_Silkscreen: Vec<u8>,
    pub Bottom_Soldermask: Vec<u8>,
    pub Bottom_PasteMask: Vec<u8>,
    pub Bottom_Layer: Vec<u8>,
    pub Top_Silkscreen: Vec<u8>,
    pub Top_Soldermask: Vec<u8>,
    pub Top_PasteMask: Vec<u8>,
    pub Top_Layer: Vec<u8>,
    pub Board_Outline: Vec<u8>,
    pub InnerLayer: Vec<u8>,
    pub InnerLayer_Templete: Vec<u8>,
    pub Other: Vec<Vec<u8>>,
}

impl View for FileName {
    type V = FileNameV;

    open spec fn view(&self) -> FileNameV {
        FileNameV {
            eda_name: self.EDA_Name@,
            npth_through: self.NPTH_Through@,
            pth_through: self.PTH_Through@,
            pth_through_via: self.PTH_Through_Via@,
            bottom_silkscreen: self.Bottom_Silkscreen@,
            bottom_soldermask: self.Bottom_Soldermask@,
            bottom_pastemask: self.Bottom_PasteMask@,
            bottom_layer: self.Bottom_Layer@,
            top_silkscreen: self.Top_Silkscreen@,
            top_soldermask: self.Top_Soldermask@,
            top_pastemask: self.Top_PasteMask@,
            top_layer: self.Top_Layer@,
            board_outline: self.Board_Outline@,
            inner_layer: self.InnerLayer@,
            inner_layer_template: self.InnerLayer_Templete@,
            other: self.Other.deep_view(),
        }
    }
}

/// The canonical key order in which a style's entries are examined.
pub open spec fn key_order() -> Seq<LayerKey> {
    seq![
        LayerKey::DrillNonPlated,
        LayerKey::DrillPlated,
        LayerKey::DrillPlatedVia,
        LayerKey::BottomSilkscreen,
        LayerKey::BottomSoldermask,
        LayerKey::BottomPasteMask,
        LayerKey::BottomLayer,
        LayerKey::TopSilkscreen,
        LayerKey::TopSoldermask,
        LayerKey::TopPasteMask,
        LayerKey::TopLayer,
        LayerKey::BoardOutline,
        LayerKey::InnerLayer,
        LayerKey::Other,
    ]
}

/// The recognition patterns a style holds for a key.
pub open spec fn patterns_of(s: FileNameV, k: LayerKey) -> Seq<Seq<u8>> {
    match k {
        LayerKey::DrillNonPlated => seq![s.npth_through],
        LayerKey::DrillPlated => seq![s.pth_through],
        LayerKey::DrillPlatedVia => seq![s.pth_through_via],
        LayerKey::BottomSilkscreen => seq![s.bottom_silkscreen],
        LayerKey::BottomSoldermask => seq![s.bottom_soldermask],
        LayerKey::BottomPasteMask => seq![s.bottom_pastemask],
        LayerKey::BottomLayer => seq![s.bottom_layer],
        LayerKey::TopSilkscreen => seq![s.top_silkscreen],
        LayerKey::TopSoldermask => seq![s.top_soldermask],
        LayerKey::TopPasteMask => seq![s.top_pastemask],
        LayerKey::TopLayer => seq![s.top_layer],
        LayerKey::BoardOutline => seq![s.board_outline],
        LayerKey::InnerLayer => seq![s.inner_layer],
        LayerKey::Other => s.other,
    }
}

/// The canonical output name a style holds for a key (`Other` has none).
pub open spec fn get_spec(s: FileNameV, k: LayerKey) -> Option<Seq<u8>> {
    match k {
        LayerKey::DrillNonPlated => Some(s.npth_through),
        LayerKey::DrillPlated => Some(s.pth_through),
        LayerKey::DrillPlatedVia => Some(s.pth_through_via),
        LayerKey::BottomSilkscreen => Some(s.bottom_silkscreen),
        LayerKey::BottomSoldermask => Some(s.bottom_soldermask),
        LayerKey::BottomPasteMask => Some(s.bottom_pastemask),
        LayerKey::BottomLayer => Some(s.bottom_layer),
        LayerKey::TopSilkscreen => Some(s.top_silkscreen),
        LayerKey::TopSoldermask => Some(s.top_soldermask),
        LayerKey::TopPasteMask => Some(s.top_pastemask),
        LayerKey::TopLayer => Some(s.top_layer),
        LayerKey::BoardOutline => Some(s.board_outline),
        LayerKey::InnerLayer => Some(s.inner_layer),
        LayerKey::Other => None,
    }
}

/// `"null"`, the sentinel marking an unused registry slot. A sentinel
/// pattern is skipped during detection and classification: it is never
/// compiled and matches nothing.
pub open spec fn sentinel_pattern() -> Seq<u8> {
    seq![('n' as u8), ('u' as u8), ('l' as u8), ('l' as u8)]
}

/// The sentinel as a byte vector.
pub fn sentinel_pattern_vec() -> (r: Vec<u8>)
    ensures
        r@ == sentinel_pattern(),
{
    let mut v: Vec<u8> = Vec::new();
    v.push('n' as u8);
    v.push('u' as u8);
    v.push('l' as u8);
    v.push('l' as u8);
    assert(v@ =~= sentinel_pattern());
    v
}

/// A drill key: copied verbatim, never header-injected or watermarked.
pub open spec fn is_drill_spec(k: LayerKey) -> bool {
    k == LayerKey::DrillNonPlated || k == LayerKey::DrillPlated || k == LayerKey::DrillPlatedVia
}

/// Executable drill-key test.
pub fn is_drill_key(k: LayerKey) -> (r: bool)
    ensures
        r == is_drill_spec(k),
{
    match k {
        LayerKey::DrillNonPlated => true,
        LayerKey::DrillPlated => true,
        LayerKey::DrillPlatedVia => true,
        _ => false,
    }
}

/// A string literal's bytes as a vector.
pub fn lit_vec(s: &str) -> (r: Vec<u8>)
    ensures
        r@ == s.spec_bytes(),
{
    s.as_bytes_vec()
}

impl FileName {
    /// The canonical output name this style holds for `key` (`Other` has none).
    pub fn get(&self, key: LayerKey) -> (r: Option<Vec<u8>>)
        ensures
            match r {
                Some(v) => get_spec(self@, key) == Some(v@),
                None => get_spec(self@, key) is None,
            },
    {
        match key {
            LayerKey::DrillNonPlated => Some(crate::text::copy_bytes(
                self.NPTH_Through.as_slice(),
            )),
            LayerKey::DrillPlated => Some(crate::text::copy_bytes(self.PTH_Through.as_slice())),
            LayerKey::DrillPlatedVia => Some(crate::text::copy_bytes(
                self.PTH_Through_Via.as_slice(),
            )),
            LayerKey::BottomSilkscreen => Some(crate::text::copy_bytes(
                self.Bottom_Silkscreen.as_slice(),
            )),
            LayerKey::BottomSoldermask => Some(crate::text::copy_bytes(
                self.Bottom_Soldermask.as_slice(),
            )),
            LayerKey::BottomPasteMask => Some(crate::text::copy_bytes(
                self.Bottom_PasteMask.as_slice(),
            )),
            LayerKey::BottomLayer => Some(crate::text::copy_bytes(
                self.Bottom_Layer.as_slice(),
            )),
            LayerKey::TopSilkscreen => Some(crate::text::copy_bytes(
                self.Top_Silkscreen.as_slice(),
            )),
            LayerKey::TopSoldermask => Some(crate::text::copy_bytes(
                self.Top_Soldermask.as_slice(),
            )),
            LayerKey::TopPasteMask => Some(crate::text::copy_bytes(
                self.Top_PasteMask.as_slice(),
            )),
            LayerKey::TopLayer => Some(crate::text::copy_bytes(self.Top_Layer.as_slice())),
            LayerKey::BoardOutline => Some(crate::text::copy_bytes(
                self.Board_Outline.as_slice(),
            )),
            LayerKey::InnerLayer => Some(crate::text::copy_bytes(self.InnerLayer.as_slice())),
            LayerKey::Other => None,
        }
    }

    /// The style's `(key, patterns)` entries in canonical key order.
    pub fn entries(&self) -> (r: Vec<(LayerKey, Vec<Vec<u8>>)>)
        ensures
            r@.len() == key_order().len(),
            forall|i: int|
                0 <= i < r@.len() ==> (#[trigger] r@[i]).0 == key_order()[i]
                    && r@[i].1.deep_view() == patterns_of(self@, key_order()[i]),
    {
        let mut r: Vec<(LayerKey, Vec<Vec<u8>>)> = Vec::new();
        r.push((LayerKey::DrillNonPlated, single_pattern(self.NPTH_Through.as_slice())));
        r.push((LayerKey::DrillPlated, single_pattern(self.PTH_Through.as_slice())));
        r.push((LayerKey::DrillPlatedVia, single_pattern(self.PTH_Through_Via.as_slice())));
        r.push((LayerKey::BottomSilkscreen, single_pattern(self.Bottom_Silkscreen.as_slice())));
        r.push((LayerKey::BottomSoldermask, single_pattern(self.Bottom_Soldermask.as_slice())));
        r.push((LayerKey::BottomPasteMask, single_pattern(self.Bottom_PasteMask.as_slice())));
        r.push((LayerKey::BottomLayer, single_pattern(self.Bottom_Layer.as_slice())));
        r.push((LayerKey::TopSilkscreen, single_pattern(self.Top_Silkscreen.as_slice())));
        r.push((LayerKey::TopSoldermask, single_pattern(self.Top_Soldermask.as_slice())));
        r.push((LayerKey::TopPasteMask, single_pattern(self.Top_PasteMask.as_slice())));
        r.push((LayerKey::TopLayer, single_pattern(self.Top_Layer.as_slice())));
        r.push((LayerKey::BoardOutline, single_pattern(self.Board_Outline.as_slice())));
        r.push((LayerKey::InnerLayer, single_pattern(self.InnerLayer.as_slice())));
        r.push((LayerKey::Other, clone_patterns(&self.Other)));
        proof {
            assert forall|i: int| 0 <= i < r@.len() implies (#[trigger] r@[i]).0 == key_order()[i]
                && r@[i].1.deep_view() == patterns_of(self@, key_order()[i]) by {
                assert(r@[i].1.deep_view() =~~= patterns_of(self@, key_order()[i]));
            }
        }
        r
    }
}

/// A one-pattern list.
fn single_pattern(p: &[u8]) -> (r: Vec<Vec<u8>>)
    ensures
        r.deep_view() == seq![p@],
{
    let mut r: Vec<Vec<u8>> = Vec::new();
    r.push(crate::text::copy_bytes(p));
    proof {
        assert(r.deep_view() =~~= seq![p@]);
    }
    r
}

/// A copy of a pattern list.
fn clone_patterns(v: &Vec<Vec<u8>>) -> (r: Vec<Vec<u8>>)
    ensures
        r.deep_view() == v.deep_view(),
{
    let mut r: Vec<Vec<u8>> = Vec::new();
    let mut i: usize = 0;
    while i < v.len()
        invariant
            0 <= i <= v@.len(),
            r.deep_view().len() == i,
            forall|k: int| 0 <= k < i ==> #[trigger] r.deep_view()[k] == v.deep_view()[k],
        decreases v@.len() - i,
    {
        proof {
            assert(v[i as int]@ =~= v.deep_view()[i as int]);
        }
        let ghost od = r.deep_view();
        r.push(crate::text::copy_bytes(v[i].as_slice()));
        proof {
            assert(r.deep_view() =~~= od.push(v.deep_view()[i as int]));
        }
        i = i + 1;
    }
    proof {
        assert(r.deep_view() =~~= v.deep_view());
    }
    r
}

/// The canonical output style's view.
pub open spec fn jlc_style_v() -> FileNameV {
    FileNameV {
        eda_name: "JLC".spec_bytes(),
        npth_through: "Drill_NPTH_Through.DRL".spec_bytes(),
        pth_through: "Drill_PTH_Through.DRL".spec_bytes(),
        pth_through_via: "Drill_PTH_Through_Via.DRL".spec_bytes(),
        bottom_silkscreen: "Gerber_BottomSilkscreenLayer.GBO".spec_bytes(),
        bottom_soldermask: "Gerber_BottomSolderMaskLayer.GBS".spec_bytes(),
        bottom_pastemask: "Gerber_BottomPasteMaskLayer.GBP".spec_bytes(),
        bottom_layer: "Gerber_BottomLayer.GBL".spec_bytes(),
        top_silkscreen: "Gerber_TopSilkscreenLayer.GTO".spec_bytes(),
        top_soldermask: "Gerber_TopSolderMaskLayer.GTS".spec_bytes(),
        top_pastemask: "Gerber_TopPasteMaskLayer.GTP".spec_bytes(),
        top_layer: "Gerber_TopLayer.GTL".spec_bytes(),
        board_outline: "Gerber_BoardOutlineLayer.GKO".spec_bytes(),
        inner_layer: "^Gerber_InnerLayer(\\d+)\\.G(\\d+)$".spec_bytes(),
        inner_layer_template: "Gerber_InnerLayer{0}.G{1}".spec_bytes(),
        other: seq!["null".spec_bytes()],
    }
}

/// The KiCAD input style's view.
pub open spec fn kicad_style_v() -> FileNameV {
    FileNameV {
        eda_name: "KiCAD".spec_bytes(),
        npth_through: "-NPTH.drl".spec_bytes(),
        pth_through: "-PTH.drl".spec_bytes(),
        pth_through_via: "null".spec_bytes(),
        bottom_silkscreen: "-B_Silkscreen".spec_bytes(),
        bottom_soldermask: "-B_Mask".spec_bytes(),
        bottom_pastemask: "-B_Paste".spec_bytes(),
        bottom_layer: "-B_Cu".spec_bytes(),
        top_silkscreen: "-F_Silkscreen".spec_bytes(),
        top_soldermask: "-F_Mask".spec_bytes(),
        top_pastemask: "-F_Paste".spec_bytes(),
        top_layer: "-F_Cu".spec_bytes(),
        board_outline: "-Edge.Cuts".spec_bytes(),
        inner_layer: "In\\d+_Cu\\.g\\d+$".spec_bytes(),
        inner_layer_template: "In{0}_Cu.g{1}".spec_bytes(),
        other: seq!["null".spec_bytes()],
    }
}

/// The Protel input style's view.
pub open spec fn protel_style_v() -> FileNameV {
    FileNameV {
        eda_name: "Protel".spec_bytes(),
        npth_through: "".spec_bytes(),
        pth_through: "".spec_bytes(),
        pth_through_via: "".spec_bytes(),
        bottom_silkscreen: "(?i)\\.gbo$".spec_bytes(),
        bottom_soldermask: "(?i)\\.gbs$".spec_bytes(),
        bottom_pastemask: "(?i)\\.gbp$".spec_bytes(),
        bottom_layer: "(?i)\\.gbl$".spec_bytes(),
        top_silkscreen: "(?i)\\.gto$".spec_bytes(),
        top_soldermask: "(?i)\\.gts$".spec_bytes(),
        top_pastemask: "(?i)\\.gtp$".spec_bytes(),
        top_layer: "(?i)\\.gtl$".spec_bytes(),
        board_outline: "null".spec_bytes(),
        inner_layer: "null".spec_bytes(),
        inner_layer_template: "null".spec_bytes(),
        other: seq![
            "(?i)\\.txt$".spec_bytes(),
            "(?i)\\.drl$".spec_bytes(),
            "(?i)\\.drr$".spec_bytes(),
        ],
    }
}

/// The registered styles, in detection order.
pub open spec fn all_styles_v() -> Seq<FileNameV> {
    seq![jlc_style_v(), kicad_style_v(), protel_style_v()]
}

/// The canonical output style (all destinations are written in it).
pub fn jlc_style() -> (s: FileName)
    ensures
        s@ == jlc_style_v(),
{
    let mut other: Vec<Vec<u8>> = Vec::new();
    other.push(lit_vec("null"));
    let s = FileName {
        EDA_Name: lit_vec("JLC"),
        NPTH_Through: lit_vec("Drill_NPTH_Through.DRL"),
        PTH_Through: lit_vec("Drill_PTH_Through.DRL"),
        PTH_Through_Via: lit_vec("Drill_PTH_Through_Via.DRL"),
        Bottom_Silkscreen: lit_vec("Gerber_BottomSilkscreenLayer.GBO"),
        Bottom_Soldermask: lit_vec("Gerber_BottomSolderMaskLayer.GBS"),
        Bottom_PasteMask: lit_vec("Gerber_BottomPasteMaskLayer.GBP"),
        Bottom_Layer: lit_vec("Gerber_BottomLayer.GBL"),
        Top_Silkscreen: lit_vec("Gerber_TopSilkscreenLayer.GTO"),
        Top_Soldermask: lit_vec("Gerber_TopSolderMaskLayer.GTS"),
        Top_PasteMask: lit_vec("Gerber_TopPasteMaskLayer.GTP"),
        Top_Layer: lit_vec("Gerber_TopLayer.GTL"),
        Board_Outline: lit_vec("Gerber_BoardOutlineLayer.GKO"),
        InnerLayer: lit_vec("^Gerber_InnerLayer(\\d+)\\.G(\\d+)$"),
        InnerLayer_Templete: lit_vec("Gerber_InnerLayer{0}.G{1}"),
        Other: other,
    };
    proof {
        assert(s@.other =~~= jlc_style_v().other);
        assert(s@ =~~= jlc_style_v());
    }
    s
}

/// The KiCAD input style.
pub fn kicad_style() -> (s: FileName)
    ensures
        s@ == kicad_style_v(),
{
    let mut other: Vec<Vec<u8>> = Vec::new();
    other.push(lit_vec("null"));
    let s = FileName {
        EDA_Name: lit_vec("KiCAD"),
        NPTH_Through: lit_vec("-NPTH.drl"),
        PTH_Through: lit_vec("-PTH.drl"),
        PTH_Through_Via: lit_vec("null"),
        Bottom_Silkscreen: lit_vec("-B_Silkscreen"),
        Bottom_Soldermask: lit_vec("-B_Mask"),
        Bottom_PasteMask: lit_vec("-B_Paste"),
        Bottom_Layer: lit_vec("-B_Cu"),
        Top_Silkscreen: lit_vec("-F_Silkscreen"),
        Top_Soldermask: lit_vec("-F_Mask"),
        Top_PasteMask: lit_vec("-F_Paste"),
        Top_Layer: lit_vec("-F_Cu"),
        Board_Outline: lit_vec("-Edge.Cuts"),
        InnerLayer: lit_vec("In\\d+_Cu\\.g\\d+$"),
        InnerLayer_Templete: lit_vec("In{0}_Cu.g{1}"),
        Other: other,
    };
    proof {
        assert(s@.other =~~= kicad_style_v().other);
        assert(s@ =~~= kicad_style_v());
    }
    s
}

/// The Protel input style.
pub fn protel_style() -> (s: FileName)
    ensures
        s@ == protel_style_v(),
{
    let mut other: Vec<Vec<u8>> = Vec::new();
    other.push(lit_vec("(?i)\\.txt$"));
    other.push(lit_vec("(?i)\\.drl$"));
    other.push(lit_vec("(?i)\\.drr$"));
    let s = FileName {
        EDA_Name: lit_vec("Protel"),
        NPTH_Through: lit_vec(""),
        PTH_Through: lit_vec(""),
        PTH_Through_Via: lit_vec(""),
        Bottom_Silkscreen: lit_vec("(?i)\\.gbo$"),
        Bottom_Soldermask: lit_vec("(?i)\\.gbs$"),
        Bottom_PasteMask: lit_vec("(?i)\\.gbp$"),
        Bottom_Layer: lit_vec("(?i)\\.gbl$"),
        Top_Silkscreen: lit_vec("(?i)\\.gto$"),
        Top_Soldermask: lit_vec("(?i)\\.gts$"),
        Top_PasteMask: lit_vec("(?i)\\.gtp$"),
        Top_Layer: lit_vec("(?i)\\.gtl$"),
        Board_Outline: lit_vec("null"),
        InnerLayer: lit_vec("null"),
        InnerLayer_Templete: lit_vec("null"),
        Other: other,
    };
    proof {
        assert(s@.other =~~= protel_style_v().other);
        assert(s@ =~~= protel_style_v());
    }
    s
}

/// The mode in which the source style is chosen.
pub enum EDA {
    /// Fixed: use the built-in KiCAD style directly.
    Kicad,
    /// Fixed: use the built-in Protel style directly.
    Protel,
    /// Detect by the board-outline fingerprint, first registered match wins.
    Auto,
    /// Exact, case-sensitive match against a style identifier.
    Custom(Vec<u8>),
}

/// Mathematical view of the selection mode.
pub enum EdaV {
    Kicad,
    Protel,
    Auto,
    Custom(Seq<u8>),
}

impl View for EDA {
    type V = EdaV;

    open spec fn view(&self) -> EdaV {
        match self {
            EDA::Kicad => EdaV::Kicad,
            EDA::Protel => EdaV::Protel,
            EDA::Auto => EdaV::Auto,
            EDA::Custom(name) => EdaV::Custom(name@),
        }
    }
}

/// The per-run configuration handed in by the caller, already parsed.
pub struct TransJLC {
    pub language: String,
    pub EDA: String,
    pub path: String,
    pub output_path: String,
    pub zip: bool,
    pub zip_name: String,
}

} // verus!
