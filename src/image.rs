//! The bytes of a complete MMV file, and what a reader recovers from them.

use vstd::prelude::*;
use crate::layout::{
    le32, le64, le_value, lemma_le32_round_trip, lemma_le64_round_trip, lemma_mmv_size_formula,
    metric_block_offset,
    metric_section_offset, mmv_size, string_block_offset, string_section_offset,
    value_section_offset, HDR_LEN, METRIC_BLOCK_LEN, METRIC_NAME_MAX_LEN, STRING_BLOCK_LEN,
    TOC_BLOCK_LEN, TOC_COUNT, VALUE_BLOCK_LEN,
};
use crate::metric::MetricView;
use crate::region::text_field;

verus! {

/// The magic marker "MMV" and its terminator, read as a little-endian word.
pub const MMV_MAGIC: u32 = 0x0056_4d4d;

/// The version of the layout.
pub const MMV_VERSION: u32 = 1;

/// The magic marker's bytes are 'M', 'M', 'V', 0.
pub proof fn lemma_magic_bytes()
    ensures
        le32(MMV_MAGIC) == seq![77u8, 77u8, 86u8, 0u8],
{
    reveal_with_fuel(crate::layout::le_bytes, 5);
    assert(le32(MMV_MAGIC) =~= seq![77u8, 77u8, 86u8, 0u8]);
}

/// The start of the header, up to and including generation 1.
pub open spec fn header_lead(gen: i64) -> Seq<u8> {
    le32(MMV_MAGIC) + le32(MMV_VERSION) + le64(gen as u64)
}

/// The rest of the header after generation 2.
pub open spec fn header_tail(flags: u32, pid: i32, cluster_id: u32) -> Seq<u8> {
    le32(TOC_COUNT as u32) + le32(flags) + le32(pid as u32) + le32(cluster_id)
}

/// The file header. `gen` is written first as generation 1 and `gen2` last as
/// generation 2.
pub open spec fn header_bytes(gen: i64, gen2: i64, flags: u32, pid: i32, cluster_id: u32) -> Seq<
    u8,
> {
    header_lead(gen) + le64(gen2 as u64) + header_tail(flags, pid, cluster_id)
}

/// The three table-of-contents entries of a file with `n` metrics.
pub open spec fn toc_bytes(n: nat) -> Seq<u8> {
    le32(3) + le32(n as u32) + le64(metric_section_offset() as u64) + le32(4) + le32(n as u32)
        + le64(value_section_offset(n) as u64) + le32(5) + le32((2 * n) as u32) + le64(
        string_section_offset(n) as u64,
    )
}

/// The metric block of metric `m`, the `i`-th of `n`.
pub open spec fn metric_block(m: MetricView, n: nat, i: nat) -> Seq<u8> {
    text_field(m.name, METRIC_NAME_MAX_LEN as nat) + le32(m.item) + le32(m.val.spec_type_code())
        + le32(m.sem.spec_code()) + le32(m.dim) + le32(m.indom) + le32(0) + le64(
        string_block_offset(n, i) as u64,
    ) + le64((string_block_offset(n, i) + STRING_BLOCK_LEN) as u64)
}

/// The value block of metric `m`, the `i`-th.
pub open spec fn value_block(m: MetricView, i: nat) -> Seq<u8> {
    le64(m.val.spec_bits()) + le64(0) + le64(metric_block_offset(i) as u64) + le64(0)
}

/// The two string blocks of metric `m`: short help, then long help.
pub open spec fn string_blocks(m: MetricView) -> Seq<u8> {
    text_field(m.short_help, STRING_BLOCK_LEN as nat) + text_field(
        m.long_help,
        STRING_BLOCK_LEN as nat,
    )
}

/// The metric blocks of the first `k` metrics of `ms`.
pub open spec fn metric_blocks(ms: Seq<MetricView>, k: nat) -> Seq<u8>
    decreases k,
{
    if k == 0 {
        Seq::empty()
    } else {
        metric_blocks(ms, (k - 1) as nat) + metric_block(ms[k - 1], ms.len(), (k - 1) as nat)
    }
}

/// The value blocks of the first `k` metrics of `ms`.
pub open spec fn value_blocks(ms: Seq<MetricView>, k: nat) -> Seq<u8>
    decreases k,
{
    if k == 0 {
        Seq::empty()
    } else {
        value_blocks(ms, (k - 1) as nat) + value_block(ms[k - 1], (k - 1) as nat)
    }
}

/// The string blocks of the first `k` metrics of `ms`.
pub open spec fn string_blocks_upto(ms: Seq<MetricView>, k: nat) -> Seq<u8>
    decreases k,
{
    if k == 0 {
        Seq::empty()
    } else {
        string_blocks_upto(ms, (k - 1) as nat) + string_blocks(ms[k - 1])
    }
}

/// Everything after the header of a file that publishes `ms`.
pub open spec fn body_bytes(ms: Seq<MetricView>) -> Seq<u8> {
    toc_bytes(ms.len()) + metric_blocks(ms, ms.len()) + value_blocks(ms, ms.len())
        + string_blocks_upto(ms, ms.len())
}

/// The complete file that publishes `ms`, with generation `gen`.
pub open spec fn mmv_image(ms: Seq<MetricView>, gen: i64, flags: u32, pid: i32, cluster_id: u32) -> Seq<
    u8,
> {
    header_bytes(gen, gen, flags, pid, cluster_id) + body_bytes(ms)
}

/// Every metric's texts fit their blocks.
pub open spec fn all_texts_fit(ms: Seq<MetricView>) -> bool {
    forall|i: int| 0 <= i < ms.len() ==> #[trigger] ms[i].texts_fit()
}

/// No two of `ms` share a name.
pub open spec fn names_distinct(ms: Seq<MetricView>) -> bool {
    forall|i: int, j: int|
        #![trigger ms[i], ms[j]]
        0 <= i < ms.len() && 0 <= j < ms.len() && i != j ==> ms[i].name != ms[j].name
}

/// The name field at `pos` of `s` holds `name`, nul-terminated and zero-padded.
pub open spec fn name_in_place(s: Seq<u8>, pos: int, name: Seq<u8>) -> bool {
    &&& name.len() < METRIC_NAME_MAX_LEN
    &&& pos + METRIC_NAME_MAX_LEN <= s.len()
    &&& s.subrange(pos, pos + METRIC_NAME_MAX_LEN) == text_field(name, METRIC_NAME_MAX_LEN as nat)
}

/// The metric blocks of `s` carry the names of `ms`, in order.
pub open spec fn names_in_order(s: Seq<u8>, ms: Seq<MetricView>) -> bool {
    forall|i: int|
        0 <= i < ms.len() ==> name_in_place(s, metric_block_offset(i as nat), #[trigger] ms[i].name)
}

/// Whether the table of contents can count `n` metrics and their strings.
pub open spec fn toc_counts_fit(n: nat) -> bool {
    2 * n <= u32::MAX
}

/// A nul-terminated text field fills its capacity.
pub proof fn lemma_text_field_len(s: Seq<u8>, cap: nat)
    requires
        s.len() < cap,
    ensures
        text_field(s, cap).len() == cap,
{
}

/// The header is 40 bytes long.
pub proof fn lemma_header_len(gen: i64, gen2: i64, flags: u32, pid: i32, cluster_id: u32)
    ensures
        header_bytes(gen, gen2, flags, pid, cluster_id).len() == HDR_LEN,
{
    lemma_le32_round_trip(MMV_MAGIC);
    lemma_le32_round_trip(MMV_VERSION);
    lemma_le32_round_trip(3);
    lemma_le32_round_trip(flags);
    lemma_le32_round_trip(pid as u32);
    lemma_le32_round_trip(cluster_id);
    lemma_le64_round_trip(gen as u64);
    lemma_le64_round_trip(gen2 as u64);
}

/// Each section has its blocks' length times the number of blocks.
pub proof fn lemma_sections_len(ms: Seq<MetricView>, k: nat)
    requires
        k <= ms.len(),
        all_texts_fit(ms),
    ensures
        metric_blocks(ms, k).len() == METRIC_BLOCK_LEN * k,
        value_blocks(ms, k).len() == VALUE_BLOCK_LEN * k,
        string_blocks_upto(ms, k).len() == 2 * STRING_BLOCK_LEN * k,
    decreases k,
{
    if k > 0 {
        let m = ms[k - 1];
        let i = (k - 1) as nat;
        lemma_sections_len(ms, i);
        assert(m.texts_fit());
        lemma_le32_round_trip(m.item);
        lemma_le32_round_trip(m.val.spec_type_code());
        lemma_le32_round_trip(m.sem.spec_code());
        lemma_le32_round_trip(m.dim);
        lemma_le32_round_trip(m.indom);
        lemma_le32_round_trip(0);
        lemma_le64_round_trip(string_block_offset(ms.len(), i) as u64);
        lemma_le64_round_trip((string_block_offset(ms.len(), i) + STRING_BLOCK_LEN) as u64);
        lemma_le64_round_trip(m.val.spec_bits());
        lemma_le64_round_trip(0);
        lemma_le64_round_trip(metric_block_offset(i) as u64);
    }
}

/// The table of contents is three 16-byte entries.
pub proof fn lemma_toc_len(n: nat)
    ensures
        toc_bytes(n).len() == TOC_COUNT * TOC_BLOCK_LEN,
{
    lemma_le32_round_trip(3);
    lemma_le32_round_trip(4);
    lemma_le32_round_trip(5);
    lemma_le32_round_trip(n as u32);
    lemma_le32_round_trip((2 * n) as u32);
    lemma_le64_round_trip(metric_section_offset() as u64);
    lemma_le64_round_trip(value_section_offset(n) as u64);
    lemma_le64_round_trip(string_section_offset(n) as u64);
}

/// The file that publishes `ms` is exactly as long as the layout says.
pub proof fn lemma_image_len(ms: Seq<MetricView>, gen: i64, flags: u32, pid: i32, cluster_id: u32)
    requires
        all_texts_fit(ms),
    ensures
        mmv_image(ms, gen, flags, pid, cluster_id).len() == mmv_size(ms.len()),
{
    lemma_header_len(gen, gen, flags, pid, cluster_id);
    lemma_toc_len(ms.len());
    lemma_sections_len(ms, ms.len());
}

/// A complete file, as `MMV::encode` and `MMV::map_region` leave it, carries its
/// generation twice: generation 1 and generation 2 hold the same bytes.
pub proof fn lemma_generations_match(
    ms: Seq<MetricView>,
    gen: i64,
    flags: u32,
    pid: i32,
    cluster_id: u32,
)
    ensures
        mmv_image(ms, gen, flags, pid, cluster_id).subrange(8, 16) == le64(gen as u64),
        mmv_image(ms, gen, flags, pid, cluster_id).subrange(16, 24) == le64(gen as u64),
{
    let img = mmv_image(ms, gen, flags, pid, cluster_id);
    lemma_le32_round_trip(MMV_MAGIC);
    lemma_le32_round_trip(MMV_VERSION);
    lemma_le64_round_trip(gen as u64);
    assert(img.subrange(8, 16) =~= le64(gen as u64));
    assert(img.subrange(16, 24) =~= le64(gen as u64));
}

/// The file that publishes `ms`, as `MMV::encode` and `MMV::map_region` leave
/// it, is as long as the layout of `ms.len()` metrics says, and reading its table of contents back gives each section's type, its
/// number of entries and its start.
pub proof fn lemma_toc_recovers(
    ms: Seq<MetricView>,
    gen: i64,
    flags: u32,
    pid: i32,
    cluster_id: u32,
)
    requires
        all_texts_fit(ms),
        toc_counts_fit(ms.len()),
    ensures
        ({
            let img = mmv_image(ms, gen, flags, pid, cluster_id);
            let n = ms.len();
            &&& img.len() == mmv_size(n)
            &&& img.len() == HDR_LEN + 3 * TOC_BLOCK_LEN + n * (METRIC_BLOCK_LEN + VALUE_BLOCK_LEN
                + 2 * STRING_BLOCK_LEN)
            &&& le_value(img.subrange(40, 44)) == 3
            &&& le_value(img.subrange(44, 48)) == n
            &&& le_value(img.subrange(48, 56)) == metric_section_offset()
            &&& le_value(img.subrange(56, 60)) == 4
            &&& le_value(img.subrange(60, 64)) == n
            &&& le_value(img.subrange(64, 72)) == value_section_offset(n)
            &&& le_value(img.subrange(72, 76)) == 5
            &&& le_value(img.subrange(76, 80)) == 2 * n
            &&& le_value(img.subrange(80, 88)) == string_section_offset(n)
        }),
{
    let img = mmv_image(ms, gen, flags, pid, cluster_id);
    let n = ms.len();
    lemma_image_len(ms, gen, flags, pid, cluster_id);
    lemma_mmv_size_formula(n);
    lemma_header_len(gen, gen, flags, pid, cluster_id);
    lemma_toc_len(n);
    let toc = toc_bytes(n);
    assert(img.subrange(40, 88) =~= toc);
    lemma_le32_round_trip(3);
    lemma_le32_round_trip(4);
    lemma_le32_round_trip(5);
    lemma_le32_round_trip(n as u32);
    lemma_le32_round_trip((2 * n) as u32);
    lemma_le64_round_trip(metric_section_offset() as u64);
    lemma_le64_round_trip(value_section_offset(n) as u64);
    lemma_le64_round_trip(string_section_offset(n) as u64);
    assert(img.subrange(40, 44) =~= le32(3));
    assert(img.subrange(44, 48) =~= le32(n as u32));
    assert(img.subrange(48, 56) =~= le64(metric_section_offset() as u64));
    assert(img.subrange(56, 60) =~= le32(4));
    assert(img.subrange(60, 64) =~= le32(n as u32));
    assert(img.subrange(64, 72) =~= le64(value_section_offset(n) as u64));
    assert(img.subrange(72, 76) =~= le32(5));
    assert(img.subrange(76, 80) =~= le32((2 * n) as u32));
    assert(img.subrange(80, 88) =~= le64(string_section_offset(n) as u64));
}

/// The `i`-th of the first `k` metric blocks lies `i` blocks from their start.
pub proof fn lemma_metric_blocks_index(ms: Seq<MetricView>, k: nat, i: nat)
    requires
        i < k <= ms.len(),
        all_texts_fit(ms),
    ensures
        metric_blocks(ms, k).subrange(METRIC_BLOCK_LEN * i, METRIC_BLOCK_LEN * i + METRIC_BLOCK_LEN)
            == metric_block(ms[i as int], ms.len(), i),
    decreases k,
{
    let prev = metric_blocks(ms, (k - 1) as nat);
    lemma_sections_len(ms, (k - 1) as nat);
    lemma_sections_len(ms, k);
    if i == k - 1 {
        assert(metric_blocks(ms, k).subrange(
            METRIC_BLOCK_LEN * i,
            METRIC_BLOCK_LEN * i + METRIC_BLOCK_LEN,
        ) =~= metric_block(ms[i as int], ms.len(), i));
    } else {
        lemma_metric_blocks_index(ms, (k - 1) as nat, i);
        assert(METRIC_BLOCK_LEN * i + METRIC_BLOCK_LEN <= METRIC_BLOCK_LEN * (k - 1)) by (nonlinear_arith)
            requires
                i < k - 1,
        ;
        assert(metric_blocks(ms, k).subrange(
            METRIC_BLOCK_LEN * i,
            METRIC_BLOCK_LEN * i + METRIC_BLOCK_LEN,
        ) =~= prev.subrange(METRIC_BLOCK_LEN * i, METRIC_BLOCK_LEN * i + METRIC_BLOCK_LEN));
    }
}

/// The file that publishes `ms` carries their names in order.
pub proof fn lemma_names_in_image(
    ms: Seq<MetricView>,
    gen: i64,
    flags: u32,
    pid: i32,
    cluster_id: u32,
)
    requires
        all_texts_fit(ms),
    ensures
        names_in_order(mmv_image(ms, gen, flags, pid, cluster_id), ms),
{
    let img = mmv_image(ms, gen, flags, pid, cluster_id);
    let n = ms.len();
    lemma_image_len(ms, gen, flags, pid, cluster_id);
    lemma_header_len(gen, gen, flags, pid, cluster_id);
    lemma_toc_len(n);
    lemma_sections_len(ms, n);
    assert forall|i: int| 0 <= i < ms.len() implies name_in_place(
        img,
        metric_block_offset(i as nat),
        #[trigger] ms[i].name,
    ) by {
        let m = ms[i];
        assert(m.texts_fit());
        lemma_metric_blocks_index(ms, n, i as nat);
        assert(METRIC_BLOCK_LEN * i + METRIC_BLOCK_LEN <= METRIC_BLOCK_LEN * n) by (nonlinear_arith)
            requires
                0 <= i < n,
        ;
        let mb = metric_blocks(ms, n);
        let pos = metric_block_offset(i as nat);
        lemma_text_field_len(m.name, METRIC_NAME_MAX_LEN as nat);
        assert(img.subrange(pos, pos + METRIC_BLOCK_LEN) =~= mb.subrange(
            METRIC_BLOCK_LEN * i,
            METRIC_BLOCK_LEN * i + METRIC_BLOCK_LEN,
        ));
        assert(img.subrange(pos, pos + METRIC_NAME_MAX_LEN) =~= metric_block(
            m,
            n,
            i as nat,
        ).subrange(0, METRIC_NAME_MAX_LEN as int));
        assert(metric_block(m, n, i as nat).subrange(0, METRIC_NAME_MAX_LEN as int) =~= text_field(
            m.name,
            METRIC_NAME_MAX_LEN as nat,
        ));
    }
}

} // verus!
