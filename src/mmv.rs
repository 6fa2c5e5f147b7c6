//! Writing an MMV file into a mapping, and handing out its value slots.

use vstd::prelude::*;
use crate::error::MmvError;
use crate::image::{
    all_texts_fit, body_bytes, lemma_names_in_image, name_in_place, names_distinct,
    names_in_order, header_bytes, header_lead, header_tail, lemma_image_len,
    lemma_text_field_len, metric_block, metric_blocks, mmv_image, string_blocks,
    string_blocks_upto, toc_bytes, toc_counts_fit, value_block, value_blocks, MMV_MAGIC,
    MMV_VERSION,
};
use crate::layout::{
    le64, le_bytes, le_value, lemma_le32_round_trip, lemma_slots_disjoint, lemma_le64_round_trip, metric_block_offset,
    metric_section_offset, mmv_size, mmv_size_fits, string_block_offset, value_block_offset,
    Layout, HDR_LEN, METRIC_BLOCK_LEN, METRIC_NAME_MAX_LEN, STRING_BLOCK_LEN, TOC_COUNT,
    VALUE_BLOCK_LEN,
};
use crate::metric::{views, Metric, SlotView, ValueSlot};
use crate::region::{splice, text_field, Mapping};

verus! {

/// Writer flags stored in the file header.
#[derive(Clone, Copy, Debug, PartialEq, Eq, Structural)]
pub struct MMVFlags {
    bits: u32,
}

impl View for MMVFlags {
    type V = u32;

    closed spec fn view(&self) -> u32 {
        self.bits
    }
}

impl MMVFlags {
    /// No flag set.
    pub fn empty() -> (r: MMVFlags)
        ensures
            r@ == 0,
    {
        MMVFlags { bits: 0 }
    }

    /// Metric names are published without a prefix.
    pub fn noprefix() -> (r: MMVFlags)
        ensures
            r@ == 1,
    {
        MMVFlags { bits: 1 }
    }

    /// The file belongs to a process.
    pub fn process() -> (r: MMVFlags)
        ensures
            r@ == 2,
    {
        MMVFlags { bits: 2 }
    }

    /// The file is a sentinel.
    pub fn sentinel() -> (r: MMVFlags)
        ensures
            r@ == 4,
    {
        MMVFlags { bits: 4 }
    }

    /// The known flags among `bits`; unknown bits are dropped.
    pub fn from_bits_truncate(bits: u32) -> (r: MMVFlags)
        ensures
            r@ == bits & 7,
    {
        MMVFlags { bits: bits & 7 }
    }

    /// The flags set in either.
    pub fn union(self, other: MMVFlags) -> (r: MMVFlags)
        ensures
            r@ == self@ | other@,
    {
        MMVFlags { bits: self.bits | other.bits }
    }

    /// Whether every flag of `other` is set here.
    pub fn contains(&self, other: MMVFlags) -> (r: bool)
        ensures
            r == (self@ & other@ == other@),
    {
        self.bits & other.bits == other.bits
    }

    /// The flags as the bit set written in the header.
    pub fn bits(&self) -> (r: u32)
        ensures
            r == self@,
    {
        self.bits
    }
}

/// Relies on `time::get_time`: the wall-clock time, of which the whole seconds
/// since the epoch are taken.
#[verifier::external_body]
fn wall_clock_seconds() -> (r: i64) {
    time::get_time().sec
}

/// Relies on `nix::unistd::getpid`: the id of the calling process.
#[verifier::external_body]
fn process_id() -> (r: i32) {
    nix::unistd::getpid().as_raw()
}

/// `s` is `t` with bytes replaced from `pos` on: the replaced prefix ends with them.
proof fn lemma_splice_take(s: Seq<u8>, pos: int, t: Seq<u8>)
    requires
        0 <= pos,
        pos + t.len() <= s.len(),
    ensures
        splice(s, pos, t).len() == s.len(),
        splice(s, pos, t).take(pos + t.len()) == s.take(pos) + t,
{
    assert(splice(s, pos, t).take(pos + t.len()) =~= s.take(pos) + t);
}

/// Writes the `k` low-order bytes of `x` at `pos` and returns the offset after them.
fn put_le(mapping: &mut Mapping, pos: usize, x: u64, k: usize) -> (next: usize)
    requires
        pos + k <= old(mapping)@.len() <= usize::MAX,
    ensures
        next == pos + k,
        final(mapping)@.len() == old(mapping)@.len(),
        final(mapping).spec_handed_out() == old(mapping).spec_handed_out(),
        final(mapping)@.take(next as int) == old(mapping)@.take(pos as int) + le_bytes(
            x as nat,
            k as nat,
        ),
{
    mapping.write_le(pos, x, k);
    proof {
        crate::layout::lemma_le_bytes_len(x as nat, k as nat);
        lemma_splice_take(old(mapping)@, pos as int, le_bytes(x as nat, k as nat));
    }
    pos + k
}

/// Writes `text`, nul-terminated and zero-padded to `cap` bytes, at `pos`, and
/// returns the offset after them.
fn put_text(mapping: &mut Mapping, pos: usize, text: &[u8], cap: usize) -> (next: usize)
    requires
        text@.len() < cap,
        pos + cap <= old(mapping)@.len() <= usize::MAX,
    ensures
        next == pos + cap,
        final(mapping)@.len() == old(mapping)@.len(),
        final(mapping).spec_handed_out() == old(mapping).spec_handed_out(),
        final(mapping)@.take(next as int) == old(mapping)@.take(pos as int) + text_field(
            text@,
            cap as nat,
        ),
{
    mapping.write_text(pos, text, cap);
    proof {
        lemma_text_field_len(text@, cap as nat);
        lemma_splice_take(old(mapping)@, pos as int, text_field(text@, cap as nat));
    }
    pos + cap
}

/// Writes the header with generation 2 left at zero, and returns its end.
fn write_header(mapping: &mut Mapping, gen: i64, flags: u32, pid: i32, cluster_id: u32) -> (next:
    usize)
    requires
        HDR_LEN <= old(mapping)@.len() <= usize::MAX,
    ensures
        next == HDR_LEN,
        final(mapping)@.len() == old(mapping)@.len(),
        final(mapping).spec_handed_out() == old(mapping).spec_handed_out(),
        final(mapping)@.take(next as int) == header_bytes(gen, 0, flags, pid, cluster_id),
{
    let pos = put_le(mapping, 0, MMV_MAGIC as u64, 4);
    let pos = put_le(mapping, pos, MMV_VERSION as u64, 4);
    let pos = put_le(mapping, pos, gen as u64, 8);
    let pos = put_le(mapping, pos, 0, 8);
    let pos = put_le(mapping, pos, TOC_COUNT as u64, 4);
    let pos = put_le(mapping, pos, flags as u64, 4);
    let pos = put_le(mapping, pos, pid as u32 as u64, 4);
    let pos = put_le(mapping, pos, cluster_id as u64, 4);
    proof {
        assert(old(mapping)@.take(0) =~= Seq::<u8>::empty());
        assert(mapping@.take(pos as int) =~= header_bytes(gen, 0, flags, pid, cluster_id));
    }
    pos
}

/// Writes the table of contents after the header, and returns its end.
fn write_toc(mapping: &mut Mapping, layout: &Layout) -> (next: usize)
    requires
        layout.wf(),
        toc_counts_fit(layout.n_metrics as nat),
        old(mapping)@.len() == layout.size <= usize::MAX,
    ensures
        next == metric_section_offset(),
        final(mapping)@.len() == old(mapping)@.len(),
        final(mapping).spec_handed_out() == old(mapping).spec_handed_out(),
        final(mapping)@.take(next as int) == old(mapping)@.take(HDR_LEN as int) + toc_bytes(
            layout.n_metrics as nat,
        ),
{
    let n = layout.n_metrics;
    let pos = put_le(mapping, HDR_LEN, 3, 4);
    let pos = put_le(mapping, pos, n as u32 as u64, 4);
    let pos = put_le(mapping, pos, layout.metric_section as u64, 8);
    let pos = put_le(mapping, pos, 4, 4);
    let pos = put_le(mapping, pos, n as u32 as u64, 4);
    let pos = put_le(mapping, pos, layout.value_section as u64, 8);
    let pos = put_le(mapping, pos, 5, 4);
    let pos = put_le(mapping, pos, (2 * n) as u32 as u64, 4);
    let pos = put_le(mapping, pos, layout.string_section as u64, 8);
    proof {
        assert(mapping@.take(pos as int) =~= old(mapping)@.take(HDR_LEN as int) + toc_bytes(
            n as nat,
        ));
    }
    pos
}

/// Writes the metric block of `m`, the `i`-th metric, and returns its end.
#[verifier::rlimit(40)]
fn write_metric_block(mapping: &mut Mapping, layout: &Layout, m: &Metric, i: usize) -> (next:
    usize)
    requires
        layout.wf(),
        i < layout.n_metrics,
        m@.texts_fit(),
        old(mapping)@.len() == layout.size <= usize::MAX,
    ensures
        next == metric_block_offset(i as nat) + METRIC_BLOCK_LEN,
        final(mapping)@.len() == old(mapping)@.len(),
        final(mapping).spec_handed_out() == old(mapping).spec_handed_out(),
        final(mapping)@.take(next as int) == old(mapping)@.take(metric_block_offset(i as nat))
            + metric_block(m@, layout.n_metrics as nat, i as nat),
{
    proof {
        let n = layout.n_metrics;
        assert(METRIC_BLOCK_LEN * i + METRIC_BLOCK_LEN <= METRIC_BLOCK_LEN * n) by (nonlinear_arith)
            requires
                i < n,
        ;
        assert(2 * STRING_BLOCK_LEN * i + 2 * STRING_BLOCK_LEN <= 2 * STRING_BLOCK_LEN * n)
            by (nonlinear_arith)
            requires
                i < n,
        ;
    }
    let start = layout.metric_section + METRIC_BLOCK_LEN * i;
    let shorthelp = layout.string_section + 2 * STRING_BLOCK_LEN * i;
    let longhelp = shorthelp + STRING_BLOCK_LEN;
    let val = m.val();
    let pos = put_text(mapping, start, m.name().as_bytes(), METRIC_NAME_MAX_LEN);
    let pos = put_le(mapping, pos, m.item() as u64, 4);
    let pos = put_le(mapping, pos, val.type_code() as u64, 4);
    let pos = put_le(mapping, pos, m.sem().code() as u64, 4);
    let pos = put_le(mapping, pos, m.dim() as u64, 4);
    let pos = put_le(mapping, pos, m.indom() as u64, 4);
    let pos = put_le(mapping, pos, 0, 4);
    let pos = put_le(mapping, pos, shorthelp as u64, 8);
    let pos = put_le(mapping, pos, longhelp as u64, 8);
    proof {
        assert(mapping@.take(pos as int) =~= old(mapping)@.take(start as int) + metric_block(
            m@,
            layout.n_metrics as nat,
            i as nat,
        ));
    }
    pos
}

/// Writes the value block of `m`, the `i`-th metric, and returns its end.
fn write_value_block(mapping: &mut Mapping, layout: &Layout, m: &Metric, i: usize) -> (next:
    usize)
    requires
        layout.wf(),
        i < layout.n_metrics,
        old(mapping)@.len() == layout.size <= usize::MAX,
    ensures
        next == value_block_offset(layout.n_metrics as nat, i as nat) + VALUE_BLOCK_LEN,
        final(mapping)@.len() == old(mapping)@.len(),
        final(mapping).spec_handed_out() == old(mapping).spec_handed_out(),
        final(mapping)@.take(next as int) == old(mapping)@.take(
            value_block_offset(layout.n_metrics as nat, i as nat),
        ) + value_block(m@, i as nat),
{
    proof {
        let n = layout.n_metrics;
        assert(VALUE_BLOCK_LEN * i + VALUE_BLOCK_LEN <= VALUE_BLOCK_LEN * n) by (nonlinear_arith)
            requires
                i < n,
        ;
        assert(METRIC_BLOCK_LEN * i + METRIC_BLOCK_LEN <= METRIC_BLOCK_LEN * n) by (nonlinear_arith)
            requires
                i < n,
        ;
    }
    let start = layout.value_section + VALUE_BLOCK_LEN * i;
    let back_offset = layout.metric_section + METRIC_BLOCK_LEN * i;
    let pos = put_le(mapping, start, m.val().bits(), 8);
    let pos = put_le(mapping, pos, 0, 8);
    let pos = put_le(mapping, pos, back_offset as u64, 8);
    let pos = put_le(mapping, pos, 0, 8);
    proof {
        assert(mapping@.take(pos as int) =~= old(mapping)@.take(start as int) + value_block(
            m@,
            i as nat,
        ));
    }
    pos
}

/// Writes the two string blocks of `m`, the `i`-th metric, and returns their end.
fn write_string_blocks(mapping: &mut Mapping, layout: &Layout, m: &Metric, i: usize) -> (next:
    usize)
    requires
        layout.wf(),
        i < layout.n_metrics,
        m@.texts_fit(),
        old(mapping)@.len() == layout.size <= usize::MAX,
    ensures
        next == string_block_offset(layout.n_metrics as nat, i as nat) + 2 * STRING_BLOCK_LEN,
        final(mapping)@.len() == old(mapping)@.len(),
        final(mapping).spec_handed_out() == old(mapping).spec_handed_out(),
        final(mapping)@.take(next as int) == old(mapping)@.take(
            string_block_offset(layout.n_metrics as nat, i as nat),
        ) + string_blocks(m@),
{
    proof {
        let n = layout.n_metrics;
        assert(2 * STRING_BLOCK_LEN * i + 2 * STRING_BLOCK_LEN <= 2 * STRING_BLOCK_LEN * n)
            by (nonlinear_arith)
            requires
                i < n,
        ;
    }
    let start = layout.string_section + 2 * STRING_BLOCK_LEN * i;
    let pos = put_text(mapping, start, m.short_help().as_bytes(), STRING_BLOCK_LEN);
    let pos = put_text(mapping, pos, m.long_help().as_bytes(), STRING_BLOCK_LEN);
    proof {
        assert(mapping@.take(pos as int) =~= old(mapping)@.take(start as int) + string_blocks(m@));
    }
    pos
}

/// Whether every metric's texts fit their blocks.
fn all_fit(metrics: &Vec<Metric>) -> (r: bool)
    ensures
        r == all_texts_fit(views(metrics@)),
{
    let mut i: usize = 0;
    while i < metrics.len()
        invariant
            i <= metrics@.len(),
            forall|j: int| 0 <= j < i ==> #[trigger] views(metrics@)[j].texts_fit(),
        decreases metrics@.len() - i,
    {
        if !metrics[i].texts_fit() {
            assert(!views(metrics@)[i as int].texts_fit());
            return false;
        }
        i = i + 1;
    }
    true
}

/// Whether no metric holds a value slot yet.
fn none_mapped(metrics: &Vec<Metric>) -> (r: bool)
    ensures
        r == (forall|j: int| 0 <= j < metrics@.len() ==> (#[trigger] metrics@[j])@.slot is None),
{
    let mut i: usize = 0;
    while i < metrics.len()
        invariant
            i <= metrics@.len(),
            forall|j: int| 0 <= j < i ==> (#[trigger] metrics@[j])@.slot is None,
        decreases metrics@.len() - i,
    {
        if metrics[i].is_mapped() {
            return false;
        }
        i = i + 1;
    }
    true
}

/// Whether `a` and `b` hold the same bytes.
fn same_bytes(a: &[u8], b: &[u8]) -> (r: bool)
    ensures
        r == (a@ == b@),
{
    if a.len() != b.len() {
        return false;
    }
    let mut k: usize = 0;
    while k < a.len()
        invariant
            a@.len() == b@.len(),
            k <= a@.len(),
            forall|t: int| 0 <= t < k ==> a@[t] == b@[t],
        decreases a@.len() - k,
    {
        if a[k] != b[k] {
            return false;
        }
        k = k + 1;
    }
    assert(a@ =~= b@);
    true
}

/// Whether no two metrics share a name.
fn names_all_distinct(metrics: &Vec<Metric>) -> (r: bool)
    ensures
        r == names_distinct(views(metrics@)),
{
    let ghost ms = views(metrics@);
    let mut i: usize = 0;
    while i < metrics.len()
        invariant
            ms == views(metrics@),
            i <= metrics@.len(),
            forall|a: int, b: int|
                #![trigger ms[a], ms[b]]
                0 <= a < i && 0 <= b < i && a != b ==> ms[a].name != ms[b].name,
        decreases metrics@.len() - i,
    {
        let mut j: usize = 0;
        while j < i
            invariant
                ms == views(metrics@),
                j <= i < metrics@.len(),
                forall|a: int, b: int|
                    #![trigger ms[a], ms[b]]
                    0 <= a < i && 0 <= b < i && a != b ==> ms[a].name != ms[b].name,
                forall|b: int| 0 <= b < j ==> ms[i as int].name != #[trigger] ms[b].name,
            decreases i - j,
        {
            if same_bytes(metrics[i].name().as_bytes(), metrics[j].name().as_bytes()) {
                assert(ms[i as int] == metrics@[i as int]@);
                assert(ms[j as int] == metrics@[j as int]@);
                assert(ms[i as int].name == ms[j as int].name);
                return false;
            }
            assert(ms[i as int] == metrics@[i as int]@);
            assert(ms[j as int] == metrics@[j as int]@);
            j = j + 1;
        }
        i = i + 1;
    }
    true
}

/// Whether the name field of the metric block at `pos` holds `name`.
fn name_matches(mapping: &Mapping, pos: usize, name: &[u8]) -> (r: bool)
    requires
        pos + METRIC_NAME_MAX_LEN <= mapping@.len() <= usize::MAX,
    ensures
        r == name_in_place(mapping@, pos as int, name@),
{
    if name.len() >= METRIC_NAME_MAX_LEN {
        return false;
    }
    let ghost field = text_field(name@, METRIC_NAME_MAX_LEN as nat);
    let mut k: usize = 0;
    while k < METRIC_NAME_MAX_LEN
        invariant
            name@.len() < METRIC_NAME_MAX_LEN,
            pos + METRIC_NAME_MAX_LEN <= mapping@.len() <= usize::MAX,
            field == text_field(name@, METRIC_NAME_MAX_LEN as nat),
            k <= METRIC_NAME_MAX_LEN,
            forall|t: int| 0 <= t < k ==> mapping@[pos + t] == field[t],
        decreases METRIC_NAME_MAX_LEN - k,
    {
        let expected: u8 = if k < name.len() {
            name[k]
        } else {
            0
        };
        if mapping.byte(pos + k) != expected {
            assert(mapping@.subrange(pos as int, pos + METRIC_NAME_MAX_LEN)[k as int] != field[k as int]);
            return false;
        }
        k = k + 1;
    }
    assert(mapping@.subrange(pos as int, pos + METRIC_NAME_MAX_LEN) =~= field);
    true
}

/// Whether the metric blocks of `mapping` carry the names of `metrics`, in order.
fn names_match(mapping: &Mapping, layout: &Layout, metrics: &Vec<Metric>) -> (r: bool)
    requires
        layout.wf(),
        layout.n_metrics == metrics@.len(),
        mapping@.len() == layout.size <= usize::MAX,
    ensures
        r == names_in_order(mapping@, views(metrics@)),
{
    let ghost ms = views(metrics@);
    let n = metrics.len();
    let mut i: usize = 0;
    while i < n
        invariant
            ms == views(metrics@),
            n == metrics@.len(),
            layout.wf(),
            layout.n_metrics == n,
            mapping@.len() == layout.size <= usize::MAX,
            i <= n,
            forall|j: int|
                0 <= j < i ==> name_in_place(mapping@, metric_block_offset(j as nat), #[trigger] ms[j].name),
        decreases n - i,
    {
        proof {
            assert(METRIC_BLOCK_LEN * i + METRIC_BLOCK_LEN <= METRIC_BLOCK_LEN * n) by (nonlinear_arith)
                requires
                    i < n,
            ;
        }
        let pos = layout.metric_section + METRIC_BLOCK_LEN * i;
        assert(ms[i as int] == metrics@[i as int]@);
        if !name_matches(mapping, pos, metrics[i].name().as_bytes()) {
            return false;
        }
        i = i + 1;
    }
    true
}

/// Replacing generation 2 in a header turns it into the header with that generation.
proof fn lemma_publish(lead: Seq<u8>, placeholder: Seq<u8>, gen2: Seq<u8>, rest: Seq<u8>)
    requires
        lead.len() == 16,
        placeholder.len() == 8,
        gen2.len() == 8,
    ensures
        splice(lead + placeholder + rest, 16, gen2) == lead + gen2 + rest,
{
    assert(splice(lead + placeholder + rest, 16, gen2) =~= lead + gen2 + rest);
}

/// The value slot of metric `i` in a file with `n` metrics.
pub open spec fn slot_of(n: nat, i: nat) -> SlotView {
    SlotView { offset: value_block_offset(n, i) as nat, file_len: mmv_size(n) as nat }
}

/// Writing a value into the slot of metric `i` leaves the slot of every other
/// metric `j` of the same file as it was.
pub proof fn lemma_update_keeps_other_slots(s: Seq<u8>, n: nat, i: nat, j: nat, bits: u64)
    requires
        s.len() == mmv_size(n),
        i < n,
        j < n,
        i != j,
    ensures
        ({
            let other = value_block_offset(n, j);
            splice(s, value_block_offset(n, i), le64(bits)).subrange(other, other + 8)
                == s.subrange(other, other + 8)
        }),
{
    lemma_slots_disjoint(n, i, j);
    lemma_le64_round_trip(bits);
    let other = value_block_offset(n, j);
    assert(splice(s, value_block_offset(n, i), le64(bits)).subrange(other, other + 8) =~= s.subrange(
        other,
        other + 8,
    ));
}

/// Updating the slots of two distinct metrics, one after the other, leaves every
/// byte outside those two slots as it was, and each slot reads back the value
/// written into it.
pub proof fn lemma_two_updates(s: Seq<u8>, n: nat, i: nat, j: nat, x: u64, y: u64)
    requires
        s.len() == mmv_size(n),
        i < n,
        j < n,
        i != j,
    ensures
        ({
            let oi = value_block_offset(n, i);
            let oj = value_block_offset(n, j);
            let t = splice(splice(s, oi, le64(x)), oj, le64(y));
            &&& t.len() == s.len()
            &&& forall|k: int|
                0 <= k < s.len() && !(oi <= k < oi + 8) && !(oj <= k < oj + 8) ==> #[trigger] t[k]
                    == s[k]
            &&& le_value(t.subrange(oi, oi + 8)) == x
            &&& le_value(t.subrange(oj, oj + 8)) == y
        }),
{
    lemma_slots_disjoint(n, i, j);
    lemma_slots_disjoint(n, j, i);
    lemma_le64_round_trip(x);
    lemma_le64_round_trip(y);
    let oi = value_block_offset(n, i);
    let oj = value_block_offset(n, j);
    let t1 = splice(s, oi, le64(x));
    let t = splice(t1, oj, le64(y));
    assert(t.subrange(oi, oi + 8) =~= le64(x));
    assert(t.subrange(oj, oj + 8) =~= le64(y));
}

/// Where and how a set of metrics is published.
pub struct MMV {
    path: String,
    flags: MMVFlags,
    cluster_id: u32,
}

impl MMV {
    /// The path of the file.
    pub closed spec fn spec_path(&self) -> Seq<char> {
        self.path@
    }

    /// The writer flags.
    pub closed spec fn spec_flags(&self) -> u32 {
        self.flags@
    }

    /// The cluster id.
    pub closed spec fn spec_cluster_id(&self) -> u32 {
        self.cluster_id
    }

    /// Describes the file at `path`, written with `flags` under `cluster_id`.
    pub fn new(path: &str, flags: MMVFlags, cluster_id: u32) -> (r: MMV)
        ensures
            r.spec_path() == path@,
            r.spec_flags() == flags@,
            r.spec_cluster_id() == cluster_id,
    {
        MMV { path: path.to_owned(), flags, cluster_id }
    }

    /// The path of the file.
    pub fn path(&self) -> (r: &str)
        ensures
            r@ == self.spec_path(),
    {
        self.path.as_str()
    }

    /// The writer flags.
    pub fn flags(&self) -> (r: MMVFlags)
        ensures
            r@ == self.spec_flags(),
    {
        self.flags
    }

    /// The cluster id.
    pub fn cluster_id(&self) -> (r: u32)
        ensures
            r == self.spec_cluster_id(),
    {
        self.cluster_id
    }

    /// Writes into `mapping` the file that publishes `metrics`, stamped with
    /// generation `gen` and process id `pid`. Generation 1 is written first and
    /// generation 2 last, so that a reader sees them equal only once the file is
    /// complete.
    ///
    /// Fails, writing nothing, with `Layout` when `mapping` is not exactly as
    /// long as the layout of `metrics`, the table of contents cannot count
    /// them, or the slots of `mapping` are handed out already; otherwise with
    /// `Validation` when a text does not fit its block or two metrics share a
    /// name.
    pub fn encode(&self, mapping: &mut Mapping, gen: i64, pid: i32, metrics: &Vec<Metric>) -> (r:
        Result<(), MmvError>)
        ensures
            ({
                let n = metrics@.len();
                let layout_ok = old(mapping)@.len() == mmv_size(n) && toc_counts_fit(n) && !old(
                    mapping,
                ).spec_handed_out();
                let valid = all_texts_fit(views(metrics@)) && names_distinct(views(metrics@));
                &&& !layout_ok ==> r == Err::<(), MmvError>(MmvError::Layout)
                &&& layout_ok ==> (r is Ok <==> valid)
                &&& layout_ok && !valid ==> r == Err::<(), MmvError>(MmvError::Validation)
            }),
            final(mapping).spec_handed_out() == old(mapping).spec_handed_out(),
            r is Err ==> final(mapping)@ == old(mapping)@,
            r is Ok ==> final(mapping)@ == mmv_image(
                views(metrics@),
                gen,
                self.spec_flags(),
                pid,
                self.spec_cluster_id(),
            ),
    {
        let n = metrics.len();
        let len = mapping.len();
        if !mmv_size_fits(n) {
            return Err(MmvError::Layout);
        }
        let layout = Layout::new(n);
        if len != layout.size || n > (u32::MAX / 2) as usize || mapping.slots_handed_out() {
            return Err(MmvError::Layout);
        }
        if !all_fit(metrics) || !names_all_distinct(metrics) {
            return Err(MmvError::Validation);
        }
        let ghost ms = views(metrics@);
        let ghost head = header_bytes(gen, 0, self.spec_flags(), pid, self.spec_cluster_id())
            + toc_bytes(n as nat);
        write_header(mapping, gen, self.flags.bits(), pid, self.cluster_id);
        let mut pos = write_toc(mapping, &layout);
        assert(mapping@.take(pos as int) =~= head + metric_blocks(ms, 0));
        let mut i: usize = 0;
        while i < n
            invariant
                layout.wf(),
                layout.n_metrics == n,
                n == metrics@.len(),
                ms == views(metrics@),
                all_texts_fit(ms),
                toc_counts_fit(n as nat),
                mapping@.len() == layout.size <= usize::MAX,
                !mapping.spec_handed_out(),
                i <= n,
                pos == metric_block_offset(i as nat),
                mapping@.take(pos as int) == head + metric_blocks(ms, i as nat),
            decreases n - i,
        {
            assert(ms[i as int] == metrics@[i as int]@);
            pos = write_metric_block(mapping, &layout, &metrics[i], i);
            assert(mapping@.take(pos as int) =~= head + metric_blocks(ms, (i + 1) as nat));
            i = i + 1;
        }
        let ghost mid = head + metric_blocks(ms, n as nat);
        assert(mapping@.take(pos as int) =~= mid + value_blocks(ms, 0));
        i = 0;
        while i < n
            invariant
                layout.wf(),
                layout.n_metrics == n,
                n == metrics@.len(),
                ms == views(metrics@),
                mapping@.len() == layout.size <= usize::MAX,
                !mapping.spec_handed_out(),
                i <= n,
                pos == value_block_offset(n as nat, i as nat),
                mapping@.take(pos as int) == mid + value_blocks(ms, i as nat),
            decreases n - i,
        {
            assert(ms[i as int] == metrics@[i as int]@);
            pos = write_value_block(mapping, &layout, &metrics[i], i);
            assert(mapping@.take(pos as int) =~= mid + value_blocks(ms, (i + 1) as nat));
            i = i + 1;
        }
        let ghost tail = mid + value_blocks(ms, n as nat);
        assert(mapping@.take(pos as int) =~= tail + string_blocks_upto(ms, 0));
        i = 0;
        while i < n
            invariant
                layout.wf(),
                layout.n_metrics == n,
                n == metrics@.len(),
                ms == views(metrics@),
                all_texts_fit(ms),
                mapping@.len() == layout.size <= usize::MAX,
                !mapping.spec_handed_out(),
                i <= n,
                pos == string_block_offset(n as nat, i as nat),
                mapping@.take(pos as int) == tail + string_blocks_upto(ms, i as nat),
            decreases n - i,
        {
            assert(ms[i as int] == metrics@[i as int]@);
            pos = write_string_blocks(mapping, &layout, &metrics[i], i);
            assert(mapping@.take(pos as int) =~= tail + string_blocks_upto(ms, (i + 1) as nat));
            i = i + 1;
        }
        let ghost written = mapping@;
        assert(written =~= written.take(pos as int));
        // generation 2 last: the file is complete
        mapping.write_le(16, gen as u64, 8);
        proof {
            lemma_le64_round_trip(0);
            lemma_le64_round_trip(gen as u64);
            lemma_le32_round_trip(MMV_MAGIC);
            lemma_le32_round_trip(MMV_VERSION);
            let rest = header_tail(self.spec_flags(), pid, self.spec_cluster_id()) + body_bytes(ms);
            assert(written =~= header_lead(gen) + le64(0) + rest);
            lemma_publish(header_lead(gen), le64(0), le64(gen as u64), rest);
            assert(mapping@ =~= mmv_image(
                ms,
                gen,
                self.spec_flags(),
                pid,
                self.spec_cluster_id(),
            ));
        }
        Ok(())
    }

    /// Hands each of `metrics`, in order, the value field of its value block in
    /// `mapping`: the 8 bytes at `value_block_offset(n, i)` go to the `i`-th, and
    /// `mapping` records that its slots are handed out.
    ///
    /// Fails, changing nothing, with `Layout` when `mapping` is not exactly as
    /// long as the layout of `metrics`, its slots are handed out already, one of
    /// `metrics` holds a slot already, or the metric blocks of `mapping` do not
    /// carry the names of `metrics` in their order.
    pub fn split_mmap_views(mapping: &mut Mapping, metrics: &mut Vec<Metric>) -> (r: Result<
        (),
        MmvError,
    >)
        ensures
            ({
                let n = old(metrics)@.len();
                let fits = old(mapping)@.len() == mmv_size(n) && !old(mapping).spec_handed_out()
                    && (forall|j: int| 0 <= j < n ==> (#[trigger] old(metrics)@[j])@.slot is None)
                    && names_in_order(old(mapping)@, views(old(metrics)@));
                r is Err <==> !fits
            }),
            r is Err ==> r == Err::<(), MmvError>(MmvError::Layout) && final(metrics)@ == old(
                metrics,
            )@ && final(mapping).spec_handed_out() == old(mapping).spec_handed_out(),
            final(mapping)@ == old(mapping)@,
            final(metrics)@.len() == old(metrics)@.len(),
            r is Ok ==> final(mapping).spec_handed_out(),
            r is Ok ==> forall|j: int|
                0 <= j < old(metrics)@.len() ==> (#[trigger] final(metrics)@[j])@ == old(
                    metrics,
                )@[j]@.with_slot(slot_of(old(metrics)@.len() as nat, j as nat)),
    {
        let n = metrics.len();
        let len = mapping.len();
        if !mmv_size_fits(n) {
            return Err(MmvError::Layout);
        }
        let layout = Layout::new(n);
        if len != layout.size || mapping.slots_handed_out() || !none_mapped(metrics) {
            return Err(MmvError::Layout);
        }
        if !names_match(mapping, &layout, metrics) {
            return Err(MmvError::Layout);
        }
        let ghost start = metrics@;
        let mut i: usize = 0;
        while i < n
            invariant
                layout.wf(),
                layout.n_metrics == n,
                n == start.len(),
                metrics@.len() == n,
                layout.size <= usize::MAX,
                i <= n,
                forall|j: int| 0 <= j < n ==> (#[trigger] start[j])@.slot is None,
                forall|j: int|
                    0 <= j < i ==> (#[trigger] metrics@[j])@ == start[j]@.with_slot(
                        slot_of(n as nat, j as nat),
                    ),
                forall|j: int| i <= j < n ==> #[trigger] metrics@[j] == start[j],
            decreases n - i,
        {
            proof {
                assert(VALUE_BLOCK_LEN * i + VALUE_BLOCK_LEN <= VALUE_BLOCK_LEN * n)
                    by (nonlinear_arith)
                    requires
                        i < n,
                ;
            }
            let offset = layout.value_section + VALUE_BLOCK_LEN * i;
            metrics[i].attach_slot(ValueSlot::new(offset, layout.size));
            i = i + 1;
        }
        mapping.mark_handed_out();
        Ok(())
    }

    /// Publishes `metrics` in `mapping`: writes the file, stamped with the
    /// wall-clock time in seconds and this process's id, then hands each metric
    /// its value slot as [`MMV::split_mmap_views`] does.
    ///
    /// Fails, changing nothing, with `Layout` when `mapping` is not exactly as
    /// long as the layout of `metrics`, the table of contents cannot count them,
    /// the slots of `mapping` are handed out already, or one of `metrics` holds
    /// a slot already; otherwise with `Validation` when a text does not fit its
    /// block or two metrics share a name.
    pub fn map_region(&self, mapping: &mut Mapping, metrics: &mut Vec<Metric>) -> (r: Result<
        (),
        MmvError,
    >)
        ensures
            ({
                let n = old(metrics)@.len();
                let layout_ok = old(mapping)@.len() == mmv_size(n) && toc_counts_fit(n) && !old(
                    mapping,
                ).spec_handed_out() && forall|j: int|
                    0 <= j < n ==> (#[trigger] old(metrics)@[j])@.slot is None;
                let valid = all_texts_fit(views(old(metrics)@)) && names_distinct(
                    views(old(metrics)@),
                );
                &&& !layout_ok ==> r == Err::<(), MmvError>(MmvError::Layout)
                &&& layout_ok && !valid ==> r == Err::<(), MmvError>(MmvError::Validation)
                &&& layout_ok && valid ==> r is Ok
            }),
            r is Err ==> final(mapping)@ == old(mapping)@ && final(metrics)@ == old(metrics)@
                && final(mapping).spec_handed_out() == old(mapping).spec_handed_out(),
            r is Ok ==> exists|gen: i64, pid: i32|
                final(mapping)@ == mmv_image(
                    views(old(metrics)@),
                    gen,
                    self.spec_flags(),
                    pid,
                    self.spec_cluster_id(),
                ),
            r is Ok ==> final(mapping).spec_handed_out(),
            final(metrics)@.len() == old(metrics)@.len(),
            r is Ok ==> forall|j: int|
                0 <= j < old(metrics)@.len() ==> (#[trigger] final(metrics)@[j])@ == old(
                    metrics,
                )@[j]@.with_slot(slot_of(old(metrics)@.len() as nat, j as nat)),
    {
        if !none_mapped(metrics) {
            return Err(MmvError::Layout);
        }
        let gen = wall_clock_seconds();
        let pid = process_id();
        let written = self.encode(mapping, gen, pid, metrics);
        if written.is_err() {
            return written;
        }
        proof {
            lemma_image_len(views(metrics@), gen, self.spec_flags(), pid, self.spec_cluster_id());
            lemma_names_in_image(
                views(metrics@),
                gen,
                self.spec_flags(),
                pid,
                self.spec_cluster_id(),
            );
        }
        let split = MMV::split_mmap_views(mapping, metrics);
        assert(split is Ok);
        Ok(())
    }
}

} // verus!