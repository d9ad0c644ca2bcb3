//! What the reports about a serialized file say, and when they are absent.
use vstd::prelude::*;

use crate::dex_file::DexFile;
use crate::emit_dex::assembly::{joined, layout_reports, order_report};
use crate::emit_dex::canonical::padding_reports;
use crate::emit_dex::config::{strict, CanonicalTransform, EmitConfig};
use crate::emit_dex::emit::{content_reports, emitted_bytes, emitted_file, laid_out_file};
use crate::emit_dex::error::DexEmitError;
use crate::emit_dex::laws::file::{canonical_parts, canonical_steps};
use crate::emit_dex::partial::partial;
use crate::emit_dex::preserve::{all_placed, kept_file, laid_out_anew};
use crate::emit_dex::widths::{capped, width_divergences};

verus! {

// Which reports there can be

proof fn lemma_paddings(dex: DexFile, d: crate::emit_dex::canonical::Data, r: CanonicalTransform)
    requires
        padding_reports(dex, d).contains(r),
    ensures
        r is AlignmentPaddingInserted,
{
}

proof fn lemma_layout_reports(dex: DexFile, config: EmitConfig, r: CanonicalTransform)
    requires
        laid_out_file(dex, config) is Ok,
        laid_out_file(dex, config)->Ok_0.reports.contains(r),
    ensures
        r is AlignmentPaddingInserted || r is MapListReordered || r is DataSectionLayoutReordered,
        r is MapListReordered ==> !config.preserve_map_list_order,
        r is DataSectionLayoutReordered || r is AlignmentPaddingInserted ==> !(
        config.preserve_data_section_layout && all_placed(dex)),
{
    let f = laid_out_file(dex, config)->Ok_0;
    if config.preserve_data_section_layout && all_placed(dex) {
        assert(kept_file(dex, config) is Ok);
    } else {
        let given = config;
        let config = if given.preserve_data_section_layout {
            laid_out_anew(given)
        } else {
            given
        };
        let c = canonical_parts(dex, config);
        canonical_steps(dex, config);
        reveal(joined);
        reveal(layout_reports);
        let p = padding_reports(dex, c.data);
        let o = order_report(dex);
        let k = choose|k: int| 0 <= k < f.reports.len() && f.reports[k] == r;
        if k < p.len() {
            assert(p[k] == r);
            lemma_paddings(dex, c.data, r);
        }
    }
}

proof fn lemma_content_reports(dex: DexFile, config: EmitConfig, r: CanonicalTransform)
    requires
        content_reports(dex, config).contains(r),
    ensures
        r is EncodedValueReencoded || r is InputChecksumNormalized,
        r is EncodedValueReencoded ==> !config.preserve_encoded_value_width && r
            == (CanonicalTransform::EncodedValueReencoded {
            count: capped(width_divergences(dex)),
        }) && width_divergences(dex) > 0,
        r is InputChecksumNormalized ==> !config.preserve_input_checksums
            && !dex.input_checksums_canonical,
{
}

/// What is kept is never reported as changed: no report about the order of the string pool
/// or about debug info, which are always kept, none about re-encoded values where
/// their widths are kept, none about the order of the map list where that is kept,
/// none about the order of the sections or about padding where their layout is kept,
/// and none about checksums where those read are kept.
pub proof fn what_is_kept_is_not_reported(dex: DexFile, config: EmitConfig, r: CanonicalTransform)
    requires
        emitted_file(dex, config) is Ok,
        emitted_file(dex, config)->Ok_0.reports.contains(r),
    ensures
        !(r is StringPoolReordered),
        !(r is DebugInfoStripped),
        config.preserve_encoded_value_width ==> !(r is EncodedValueReencoded),
        config.preserve_map_list_order ==> !(r is MapListReordered),
        config.preserve_input_checksums ==> !(r is InputChecksumNormalized),
        config.preserve_data_section_layout && all_placed(dex) ==> !(
        r is DataSectionLayoutReordered) && !(r is AlignmentPaddingInserted),
{
    let f = laid_out_file(dex, config)->Ok_0;
    let content = content_reports(dex, config);
    let all = f.reports + content;
    let k = choose|k: int| 0 <= k < all.len() && all[k] == r;
    if k < f.reports.len() {
        assert(f.reports[k] == r);
        lemma_layout_reports(dex, config, r);
    } else {
        assert(content[k - f.reports.len()] == r);
        lemma_content_reports(dex, config, r);
    }
}

/// Where the map list of a file lacks the place of a section, the wish to keep the
/// layout changes nothing: the bytes, the reports and the errors are those without it.
pub proof fn without_places_the_file_is_laid_out_anew(dex: DexFile, config: EmitConfig)
    requires
        !all_placed(dex),
    ensures
        emitted_file(dex, config) == emitted_file(dex, laid_out_anew(config)),
        emitted_bytes(dex, config) == emitted_bytes(dex, laid_out_anew(config)),
{
    if !config.preserve_data_section_layout {
        assert(laid_out_anew(config) == config);
    }
}

/// A report about re-encoded values counts at least one.
pub proof fn re_encoding_is_counted(dex: DexFile, config: EmitConfig, r: CanonicalTransform)
    requires
        emitted_file(dex, config) is Ok,
        emitted_file(dex, config)->Ok_0.reports.contains(r),
    ensures
        r matches CanonicalTransform::EncodedValueReencoded { count } ==> count > 0 && count
            == capped(width_divergences(dex)),
{
    let f = laid_out_file(dex, config)->Ok_0;
    let content = content_reports(dex, config);
    let all = f.reports + content;
    let k = choose|k: int| 0 <= k < all.len() && all[k] == r;
    if k < f.reports.len() {
        assert(f.reports[k] == r);
        lemma_layout_reports(dex, config, r);
    } else {
        assert(content[k - f.reports.len()] == r);
        lemma_content_reports(dex, config, r);
    }
}

/// A file of which something was lost when it was read is refused, unless that is
/// permitted.
pub proof fn partial_files_are_refused(dex: DexFile, config: EmitConfig)
    requires
        partial(dex.parse_errors@) is Some,
        !config.permit_partial_ir,
    ensures
        emitted_file(dex, config) == Err::<crate::emit_dex::assembly::Emitted, DexEmitError>(
            partial(dex.parse_errors@)->Some_0,
        ),
        emitted_bytes(dex, config) == Err::<Seq<u8>, DexEmitError>(
            partial(dex.parse_errors@)->Some_0,
        ),
{
}

/// Collecting reports changes neither the bytes nor the errors.
pub proof fn reports_do_not_change_the_file(dex: DexFile, config: EmitConfig)
    ensures
        match emitted_file(dex, config) {
            Ok(f) => emitted_bytes(dex, config) == Ok::<Seq<u8>, DexEmitError>(f.bytes),
            Err(e) => emitted_bytes(dex, config) == Err::<Seq<u8>, DexEmitError>(e),
        },
{
}

/// By default nothing is permitted and nothing is kept that differs from the canonical form.
pub proof fn default_options_ask_for_nothing()
    ensures
        !strict().permit_partial_ir,
        !strict().preserve_map_list_order,
        !strict().preserve_encoded_value_width,
        !strict().preserve_data_section_layout,
        !strict().preserve_input_checksums,
{
}

} // verus!
