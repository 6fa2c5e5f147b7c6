//! Sizes and offsets of the MMV file layout, and little-endian encoding.

use vstd::prelude::*;

verus! {

/// Length of the file header.
pub const HDR_LEN: usize = 40;

/// Length of one table-of-contents entry.
pub const TOC_BLOCK_LEN: usize = 16;

/// Number of table-of-contents entries: metrics, values, strings.
pub const TOC_COUNT: usize = 3;

/// Length of one metric block.
pub const METRIC_BLOCK_LEN: usize = 104;

/// Length of one value block.
pub const VALUE_BLOCK_LEN: usize = 32;

/// Length of one string block.
pub const STRING_BLOCK_LEN: usize = 256;

/// Capacity of the name field of a metric block, terminator included.
pub const METRIC_NAME_MAX_LEN: usize = 64;

/// Start of the metric-block section.
pub open spec fn metric_section_offset() -> int {
    HDR_LEN + TOC_COUNT * TOC_BLOCK_LEN
}

/// Start of the value-block section of a file with `n` metrics.
pub open spec fn value_section_offset(n: nat) -> int {
    metric_section_offset() + METRIC_BLOCK_LEN * n
}

/// Start of the string-block section of a file with `n` metrics.
pub open spec fn string_section_offset(n: nat) -> int {
    value_section_offset(n) + VALUE_BLOCK_LEN * n
}

/// Total size of a file with `n` metrics.
pub open spec fn mmv_size(n: nat) -> int {
    string_section_offset(n) + 2 * STRING_BLOCK_LEN * n
}

/// Offset of the metric block of metric `i`.
pub open spec fn metric_block_offset(i: nat) -> int {
    metric_section_offset() + METRIC_BLOCK_LEN * i
}

/// Offset of the value block of metric `i` in a file with `n` metrics.
pub open spec fn value_block_offset(n: nat, i: nat) -> int {
    value_section_offset(n) + VALUE_BLOCK_LEN * i
}

/// Offset of the short-help string block of metric `i` in a file with `n` metrics;
/// the long-help block follows it.
pub open spec fn string_block_offset(n: nat, i: nat) -> int {
    string_section_offset(n) + 2 * STRING_BLOCK_LEN * i
}

/// The file size is the header, three table entries, and per metric one metric
/// block, one value block and two string blocks.
pub proof fn lemma_mmv_size_formula(n: nat)
    ensures
        mmv_size(n) == HDR_LEN + 3 * TOC_BLOCK_LEN + n * (METRIC_BLOCK_LEN + VALUE_BLOCK_LEN + 2
            * STRING_BLOCK_LEN),
{
    assert(104 * n + 32 * n + 2 * 256 * n == n * (104 + 32 + 2 * 256)) by (nonlinear_arith);
}

/// The value fields of distinct metrics' value blocks do not overlap, and each
/// lies inside the value section.
pub proof fn lemma_slots_disjoint(n: nat, i: nat, j: nat)
    requires
        i < n,
        j < n,
        i != j,
    ensures
        value_block_offset(n, i) + 8 <= value_block_offset(n, j) || value_block_offset(n, j) + 8
            <= value_block_offset(n, i),
        value_section_offset(n) <= value_block_offset(n, i),
        value_block_offset(n, i) + 8 <= string_section_offset(n),
{
}

/// Byte offsets of the sections of a file with `n_metrics` metrics.
pub struct Layout {
    pub n_metrics: usize,
    pub metric_section: usize,
    pub value_section: usize,
    pub string_section: usize,
    pub size: usize,
}

impl Layout {
    /// The offsets agree with the layout of `n_metrics` metrics, and the file fits
    /// in the address space.
    pub open spec fn wf(&self) -> bool {
        &&& self.metric_section == metric_section_offset()
        &&& self.value_section == value_section_offset(self.n_metrics as nat)
        &&& self.string_section == string_section_offset(self.n_metrics as nat)
        &&& self.size == mmv_size(self.n_metrics as nat)
    }

    /// Computes the section offsets and total size for `n_metrics` metrics.
    pub fn new(n_metrics: usize) -> (r: Layout)
        requires
            mmv_size(n_metrics as nat) <= usize::MAX,
        ensures
            r.n_metrics == n_metrics,
            r.wf(),
            r.metric_section == metric_section_offset(),
            r.value_section == value_section_offset(n_metrics as nat),
            r.string_section == string_section_offset(n_metrics as nat),
            r.size == mmv_size(n_metrics as nat),
    {
        let metric_section = HDR_LEN + TOC_COUNT * TOC_BLOCK_LEN;
        let value_section = metric_section + METRIC_BLOCK_LEN * n_metrics;
        let string_section = value_section + VALUE_BLOCK_LEN * n_metrics;
        let size = string_section + 2 * STRING_BLOCK_LEN * n_metrics;
        Layout { n_metrics, metric_section, value_section, string_section, size }
    }
}

/// Returns whether a file with `n` metrics fits in the address space.
pub fn mmv_size_fits(n: usize) -> (r: bool)
    ensures
        r == (mmv_size(n as nat) <= usize::MAX),
{
    let per_metric: usize = METRIC_BLOCK_LEN + VALUE_BLOCK_LEN + 2 * STRING_BLOCK_LEN;
    let room: usize = usize::MAX - (HDR_LEN + TOC_COUNT * TOC_BLOCK_LEN);
    proof {
        lemma_mmv_size_formula(n as nat);
        assert(n <= room / per_metric <==> n * per_metric <= room) by (nonlinear_arith)
            requires
                room >= 0,
                per_metric > 0,
        ;
    }
    n <= room / per_metric
}

/// The `k` low-order bytes of `x`, least significant first.
pub open spec fn le_bytes(x: nat, k: nat) -> Seq<u8>
    decreases k,
{
    if k == 0 {
        Seq::empty()
    } else {
        seq![(x % 256) as u8] + le_bytes(x / 256, (k - 1) as nat)
    }
}

/// Little-endian encoding of a 32-bit field.
pub open spec fn le32(x: u32) -> Seq<u8> {
    le_bytes(x as nat, 4)
}

/// Little-endian encoding of a 64-bit field.
pub open spec fn le64(x: u64) -> Seq<u8> {
    le_bytes(x as nat, 8)
}

/// The number that little-endian bytes `s` stand for.
pub open spec fn le_value(s: Seq<u8>) -> nat
    decreases s.len(),
{
    if s.len() == 0 {
        0
    } else {
        s[0] as nat + 256 * le_value(s.drop_first())
    }
}

/// `256` raised to `k`.
pub open spec fn pow256(k: nat) -> nat
    decreases k,
{
    if k == 0 {
        1
    } else {
        256 * pow256((k - 1) as nat)
    }
}

/// Encoding takes exactly `k` bytes.
pub proof fn lemma_le_bytes_len(x: nat, k: nat)
    ensures
        le_bytes(x, k).len() == k,
    decreases k,
{
    if k > 0 {
        lemma_le_bytes_len(x / 256, (k - 1) as nat);
    }
}

/// Decoding the `k` low-order bytes of `x` gives back `x` when it fits.
pub proof fn lemma_le_round_trip(x: nat, k: nat)
    requires
        x < pow256(k),
    ensures
        le_value(le_bytes(x, k)) == x,
    decreases k,
{
    if k > 0 {
        let rest = le_bytes(x / 256, (k - 1) as nat);
        assert(x / 256 < pow256((k - 1) as nat)) by (nonlinear_arith)
            requires
                x < 256 * pow256((k - 1) as nat),
        ;
        lemma_le_round_trip(x / 256, (k - 1) as nat);
        assert((seq![(x % 256) as u8] + rest).drop_first() =~= rest);
    }
}

/// A 32-bit field decodes to its value.
pub proof fn lemma_le32_round_trip(x: u32)
    ensures
        le_value(le32(x)) == x,
        le32(x).len() == 4,
{
    reveal_with_fuel(pow256, 5);
    assert(pow256(4) == 0x1_0000_0000);
    lemma_le_round_trip(x as nat, 4);
    lemma_le_bytes_len(x as nat, 4);
}

/// A 64-bit field decodes to its value.
pub proof fn lemma_le64_round_trip(x: u64)
    ensures
        le_value(le64(x)) == x,
        le64(x).len() == 8,
{
    reveal_with_fuel(pow256, 9);
    assert(pow256(8) == 0x1_0000_0000_0000_0000);
    lemma_le_round_trip(x as nat, 8);
    lemma_le_bytes_len(x as nat, 8);
}

} // verus!
