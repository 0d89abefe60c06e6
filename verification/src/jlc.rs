//! The conversion context: per-run configuration and the content transforms
//! applied to each converted layer file (line-ending normalization, header
//! injection, watermarking).
#![verifier::loop_isolation(false)]
use vstd::prelude::*;

use crate::header::{crlf, header_spec, inject_header, inject_header_now, lf, timestamp_shaped};
use crate::styles::EDA;
use crate::text::{replace_all, replace_all_bytes};
use crate::watermark::{rand_below, size_limit, watermark_content, watermark_spec};

verus! {

/// One conversion run: source and destination paths, the style-selection
/// mode, the record of processed destinations, and the watermark flags.
pub struct JLC {
    /// The path of the directory holding the Gerber files.
    pub path: String,
    /// The directory the converted set is written to.
    pub output_path: String,
    /// How the source naming style is chosen.
    pub eda: EDA,
    /// Destination names processed so far, in processing order.
    pub process_path: Vec<Vec<u8>>,
    /// Suppress the hash aperture entirely.
    pub ignore_hash: bool,
    /// The document originates from an import path (changes the hash input).
    pub is_imported_pcb_doc: bool,
}

impl JLC {
    /// A fresh run: no processed files, watermarking on, not imported.
    pub fn new(path: String, output_path: String, eda: EDA) -> (r: JLC)
        ensures
            r.path == path,
            r.output_path == output_path,
            r.eda == eda,
            r.process_path@.len() == 0,
            r.ignore_hash == false,
            r.is_imported_pcb_doc == false,
    {
        JLC { path, output_path, eda, process_path: Vec::new(), ignore_hash: false, is_imported_pcb_doc: false }
    }

    /// Unify line endings to `"\r\n"` (first to `"\n"`, then to `"\r\n"`).
    pub fn normalize_line_endings(&self, content: Vec<u8>) -> (r: Vec<u8>)
        ensures
            r@ == replace_all(replace_all(content@, crlf(), lf()), lf(), crlf()),
    {
        let unified = crate::header::unify_newlines(content.as_slice());
        let mut pat: Vec<u8> = Vec::new();
        pat.push('\n' as u8);
        let mut rep: Vec<u8> = Vec::new();
        rep.push('\r' as u8);
        rep.push('\n' as u8);
        proof {
            assert(pat@ =~= lf());
            assert(rep@ =~= crlf());
        }
        replace_all_bytes(unified.as_slice(), pat.as_slice(), rep.as_slice())
    }

    /// The watermark step with explicit randomness: `draw` is the selection
    /// draw and `cc` the two-decimal base size in hundredths.
    pub fn add_hash_aperture_with(&self, content: Vec<u8>, draw: u32, cc: u32) -> (r: Vec<u8>)
        requires
            draw < 5,
            cc <= 100,
        ensures
            r@ == watermark_spec(
                content@,
                self.ignore_hash,
                self.is_imported_pcb_doc,
                draw as int,
                cc as int,
            ),
            !self.ignore_hash && content@.len() <= size_limit() ==> r@ != content@,
    {
        let ghost gc = content@;
        let r = watermark_content(content, self.ignore_hash, self.is_imported_pcb_doc, draw, cc);
        proof {
            if !self.ignore_hash && gc.len() <= size_limit() {
                crate::laws::lemma_watermark_changes_content(
                    gc,
                    self.is_imported_pcb_doc,
                    draw as int,
                    cc as int,
                );
            }
        }
        r
    }

    /// The watermark step with fresh randomness: the result is the
    /// watermarked document for some selection draw and base size in range.
    pub fn add_hash_aperture_to_gerber(&self, content: Vec<u8>) -> (r: Vec<u8>)
        ensures
            exists|draw: int, cc: int|
                0 <= draw < 5 && 0 <= cc < 100 && r@ == #[trigger] watermark_spec(
                    content@,
                    self.ignore_hash,
                    self.is_imported_pcb_doc,
                    draw,
                    cc,
                ),
            (self.ignore_hash || content@.len() > size_limit()) ==> r@ == content@,
            !self.ignore_hash && content@.len() <= size_limit() ==> r@ != content@,
    {
        let ghost gc = content@;
        let draw = rand_below(5);
        let cc = rand_below(100);
        let r = watermark_content(content, self.ignore_hash, self.is_imported_pcb_doc, draw, cc);
        proof {
            assert(r@ == watermark_spec(
                gc,
                self.ignore_hash,
                self.is_imported_pcb_doc,
                draw as int,
                cc as int,
            ));
            if !self.ignore_hash && gc.len() <= size_limit() {
                crate::laws::lemma_watermark_changes_content(
                    gc,
                    self.is_imported_pcb_doc,
                    draw as int,
                    cc as int,
                );
            }
        }
        r
    }

    /// The whole rewrite of one non-drill layer file after its copy: header
    /// injection with explicit timestamp text, then the watermark step with
    /// explicit randomness.
    pub fn process_layer_content_with(
        &self,
        content: Vec<u8>,
        ts: &[u8],
        draw: u32,
        cc: u32,
    ) -> (r: Vec<u8>)
        requires
            draw < 5,
            cc <= 100,
        ensures
            r@ == watermark_spec(
                header_spec(ts@, content@),
                self.ignore_hash,
                self.is_imported_pcb_doc,
                draw as int,
                cc as int,
            ),
    {
        let headed = inject_header(content.as_slice(), ts);
        watermark_content(headed, self.ignore_hash, self.is_imported_pcb_doc, draw, cc)
    }

    /// The whole rewrite of one non-drill layer file, with the wall clock and
    /// fresh randomness.
    pub fn process_layer_content(&self, content: Vec<u8>) -> (r: Vec<u8>)
        ensures
            exists|ts: Seq<u8>, draw: int, cc: int|
                timestamp_shaped(ts) && 0 <= draw < 5 && 0 <= cc < 100 && r@
                    == #[trigger] watermark_spec(
                    header_spec(ts, content@),
                    self.ignore_hash,
                    self.is_imported_pcb_doc,
                    draw,
                    cc,
                ),
    {
        let headed = inject_header_now(content.as_slice());
        let ghost hv = headed@;
        let ghost gts = choose|ts: Seq<u8>|
            timestamp_shaped(ts) && hv == #[trigger] header_spec(ts, content@);
        let draw = rand_below(5);
        let cc = rand_below(100);
        let r = watermark_content(headed, self.ignore_hash, self.is_imported_pcb_doc, draw, cc);
        proof {
            assert(r@ == watermark_spec(
                header_spec(gts, content@),
                self.ignore_hash,
                self.is_imported_pcb_doc,
                draw as int,
                cc as int,
            ));
        }
        r
    }
}

} // verus!
