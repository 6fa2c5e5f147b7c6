//! Metric descriptors, their values, and the value slots they own.

use vstd::prelude::*;
use vstd::string::StringSliceAdditionalSpecFns;
use vstd::utf8::encode_utf8;
use crate::error::MmvError;
use crate::layout::{le64, lemma_le64_round_trip, METRIC_NAME_MAX_LEN, STRING_BLOCK_LEN};
use crate::region::{splice, Mapping};

verus! {

/// How a reader interprets successive values of a metric.
#[derive(Clone, Copy, Debug, PartialEq, Eq, Structural)]
pub enum MetricSem {
    /// Monotonically accumulating.
    Counter,
    /// Point in time.
    Instant,
    /// Categorical.
    Discrete,
}

impl MetricSem {
    /// The semantics code written in a metric block.
    pub open spec fn spec_code(self) -> u32 {
        match self {
            MetricSem::Counter => 1,
            MetricSem::Instant => 3,
            MetricSem::Discrete => 4,
        }
    }

    /// The semantics code written in a metric block.
    pub fn code(&self) -> (r: u32)
        ensures
            r == self.spec_code(),
    {
        match self {
            MetricSem::Counter => 1,
            MetricSem::Instant => 3,
            MetricSem::Discrete => 4,
        }
    }
}

/// The value of a metric: a 64-bit signed integer or a 64-bit float.
/// The float is held as its IEEE-754 bit pattern.
#[derive(Clone, Copy, Debug, PartialEq, Eq, Structural)]
pub enum MetricType {
    I64(i64),
    F64Bits(u64),
}

impl MetricType {
    /// The value-type code written in a metric block.
    pub open spec fn spec_type_code(self) -> u32 {
        match self {
            MetricType::I64(_) => 2,
            MetricType::F64Bits(_) => 5,
        }
    }

    /// The 64 bits stored in a value slot.
    pub open spec fn spec_bits(self) -> u64 {
        match self {
            MetricType::I64(x) => x as u64,
            MetricType::F64Bits(b) => b,
        }
    }

    /// Whether two values are of the same kind.
    pub open spec fn same_kind(self, other: MetricType) -> bool {
        self.spec_type_code() == other.spec_type_code()
    }

    /// The value-type code written in a metric block.
    pub fn type_code(&self) -> (r: u32)
        ensures
            r == self.spec_type_code(),
    {
        match self {
            MetricType::I64(_) => 2,
            MetricType::F64Bits(_) => 5,
        }
    }

    /// The 64 bits stored in a value slot.
    pub fn bits(&self) -> (r: u64)
        ensures
            r == self.spec_bits(),
    {
        match self {
            MetricType::I64(x) => *x as u64,
            MetricType::F64Bits(b) => *b,
        }
    }
}

/// Where a value slot lies: its offset, and the length of the file it belongs to.
pub struct SlotView {
    pub offset: nat,
    pub file_len: nat,
}

/// Exclusive right to the 8-byte value field of one value block.
/// Only splitting a written mapping creates one, and it cannot be copied.
pub struct ValueSlot {
    offset: usize,
    file_len: usize,
}

impl View for ValueSlot {
    type V = SlotView;

    closed spec fn view(&self) -> SlotView {
        SlotView { offset: self.offset as nat, file_len: self.file_len as nat }
    }
}

impl ValueSlot {
    pub(crate) fn new(offset: usize, file_len: usize) -> (r: ValueSlot)
        ensures
            r@ == (SlotView { offset: offset as nat, file_len: file_len as nat }),
    {
        ValueSlot { offset, file_len }
    }

    /// The offset of the slot in its mapping.
    pub fn offset(&self) -> (r: usize)
        ensures
            r == self@.offset,
    {
        self.offset
    }

    /// The length of the file the slot belongs to.
    pub fn file_len(&self) -> (r: usize)
        ensures
            r == self@.file_len,
    {
        self.file_len
    }
}

/// What a metric descriptor holds: texts as their UTF-8 bytes, and its value
/// slot once it has one.
pub struct MetricView {
    pub name: Seq<u8>,
    pub item: u32,
    pub sem: MetricSem,
    pub indom: u32,
    pub dim: u32,
    pub val: MetricType,
    pub short_help: Seq<u8>,
    pub long_help: Seq<u8>,
    pub slot: Option<SlotView>,
}

impl MetricView {
    /// Name and help texts each leave room for a terminator in their blocks.
    pub open spec fn texts_fit(self) -> bool {
        self.name.len() < METRIC_NAME_MAX_LEN && self.short_help.len() < STRING_BLOCK_LEN
            && self.long_help.len() < STRING_BLOCK_LEN
    }

    /// The same descriptor holding value slot `slot`.
    pub open spec fn with_slot(self, slot: SlotView) -> MetricView {
        MetricView { slot: Some(slot), ..self }
    }

    /// The same descriptor holding value `val`.
    pub open spec fn with_val(self, val: MetricType) -> MetricView {
        MetricView { val: val, ..self }
    }
}

/// What each of `ms` holds.
pub open spec fn views(ms: Seq<Metric>) -> Seq<MetricView> {
    ms.map_values(|m: Metric| m@)
}

/// One published metric: its identity, semantics, current value, and, once its
/// file is written, the value slot it updates.
pub struct Metric {
    name: String,
    item: u32,
    sem: MetricSem,
    indom: u32,
    dim: u32,
    shorttext: String,
    longtext: String,
    val: MetricType,
    mmap_view: Option<ValueSlot>,
}

impl View for Metric {
    type V = MetricView;

    closed spec fn view(&self) -> MetricView {
        MetricView {
            name: encode_utf8(self.name@),
            item: self.item,
            sem: self.sem,
            indom: self.indom,
            dim: self.dim,
            val: self.val,
            short_help: encode_utf8(self.shorttext@),
            long_help: encode_utf8(self.longtext@),
            slot: match self.mmap_view {
                Some(s) => Some(s@),
                None => None,
            },
        }
    }
}

impl Metric {
    /// Builds a descriptor with no value slot. Fails with `Validation` when the
    /// name takes 64 bytes or more, or a help text 256 bytes or more.
    pub fn new(
        name: &str,
        item: u32,
        sem: MetricSem,
        indom: u32,
        dim: u32,
        init_val: MetricType,
        shorthelp: &str,
        longhelp: &str,
    ) -> (r: Result<Metric, MmvError>)
        ensures
            r is Err <==> !(name.spec_bytes().len() < METRIC_NAME_MAX_LEN
                && shorthelp.spec_bytes().len() < STRING_BLOCK_LEN && longhelp.spec_bytes().len()
                < STRING_BLOCK_LEN),
            r is Err ==> r == Err::<Metric, MmvError>(MmvError::Validation),
            r matches Ok(m) ==> m@ == (MetricView {
                name: name.spec_bytes(),
                item,
                sem,
                indom,
                dim,
                val: init_val,
                short_help: shorthelp.spec_bytes(),
                long_help: longhelp.spec_bytes(),
                slot: None,
            }),
    {
        if name.as_bytes().len() >= METRIC_NAME_MAX_LEN || shorthelp.as_bytes().len() >= STRING_BLOCK_LEN
            || longhelp.as_bytes().len() >= STRING_BLOCK_LEN {
            return Err(MmvError::Validation);
        }
        let m = Metric {
            name: name.to_owned(),
            item,
            sem,
            indom,
            dim,
            shorttext: shorthelp.to_owned(),
            longtext: longhelp.to_owned(),
            val: init_val,
            mmap_view: None,
        };
        Ok(m)
    }

    /// Whether the name and help texts each leave room for a terminator.
    pub fn texts_fit(&self) -> (r: bool)
        ensures
            r == self@.texts_fit(),
    {
        self.name.as_str().as_bytes().len() < METRIC_NAME_MAX_LEN
            && self.shorttext.as_str().as_bytes().len() < STRING_BLOCK_LEN
            && self.longtext.as_str().as_bytes().len() < STRING_BLOCK_LEN
    }

    /// Whether the metric holds a value slot.
    pub fn is_mapped(&self) -> (r: bool)
        ensures
            r == self@.slot is Some,
    {
        self.mmap_view.is_some()
    }

    /// The current value.
    pub fn val(&self) -> (r: MetricType)
        ensures
            r == self@.val,
    {
        self.val
    }

    /// The name.
    pub fn name(&self) -> (r: &str)
        ensures
            r.spec_bytes() == self@.name,
    {
        self.name.as_str()
    }

    /// The caller-assigned item number.
    pub fn item(&self) -> (r: u32)
        ensures
            r == self@.item,
    {
        self.item
    }

    /// The semantics.
    pub fn sem(&self) -> (r: MetricSem)
        ensures
            r == self@.sem,
    {
        self.sem
    }

    /// The instance domain; 0 when the metric has no instances.
    pub fn indom(&self) -> (r: u32)
        ensures
            r == self@.indom,
    {
        self.indom
    }

    /// The dimension tag.
    pub fn dim(&self) -> (r: u32)
        ensures
            r == self@.dim,
    {
        self.dim
    }

    /// The short help text.
    pub fn short_help(&self) -> (r: &str)
        ensures
            r.spec_bytes() == self@.short_help,
    {
        self.shorttext.as_str()
    }

    /// The long help text.
    pub fn long_help(&self) -> (r: &str)
        ensures
            r.spec_bytes() == self@.long_help,
    {
        self.longtext.as_str()
    }

    /// The offset of the value slot, if the metric holds one.
    pub fn slot_offset(&self) -> (r: Option<usize>)
        ensures
            r is Some ==> self@.slot is Some && self@.slot.unwrap().offset == r.unwrap(),
            r is None ==> self@.slot is None,
    {
        match &self.mmap_view {
            Some(s) => Some(s.offset()),
            None => None,
        }
    }

    /// Hands the metric its value slot.
    pub(crate) fn attach_slot(&mut self, slot: ValueSlot)
        requires
            old(self)@.slot is None,
        ensures
            final(self)@ == old(self)@.with_slot(slot@),
    {
        self.mmap_view = Some(slot);
    }

    /// Writes `new_val` into the metric's value slot of `mapping`, little-endian,
    /// and makes it the metric's value. Fails, changing nothing, with `NotMapped`
    /// when the metric holds no slot, with `TypeMismatch` when `new_val` is of
    /// another kind than the metric's value, and with `Layout` when `mapping` is
    /// not a mapping whose slots were handed out, is not as long as the file the
    /// slot came from, or does not hold the slot.
    pub fn set_val(&mut self, mapping: &mut Mapping, new_val: MetricType) -> (r: Result<
        (),
        MmvError,
    >)
        ensures
            old(self)@.slot is None ==> r == Err::<(), MmvError>(MmvError::NotMapped),
            old(self)@.slot is Some && !old(self)@.val.same_kind(new_val) ==> r == Err::<
                (),
                MmvError,
            >(MmvError::TypeMismatch),
            old(self)@.slot is Some && old(self)@.val.same_kind(new_val) ==> (r is Err <==> (
            !old(mapping).spec_handed_out() || old(mapping)@.len() != old(self)@.slot.unwrap().file_len
                || old(self)@.slot.unwrap().offset + 8 > old(mapping)@.len())),
            old(self)@.slot is Some && old(self)@.val.same_kind(new_val) && r is Err
                ==> r == Err::<(), MmvError>(MmvError::Layout),
            r is Err ==> final(self)@ == old(self)@ && final(mapping)@ == old(mapping)@,
            final(mapping).spec_handed_out() == old(mapping).spec_handed_out(),
            r is Ok ==> final(self)@ == old(self)@.with_val(new_val),
            r is Ok ==> final(mapping)@ == splice(
                old(mapping)@,
                old(self)@.slot.unwrap().offset as int,
                le64(new_val.spec_bits()),
            ),
            r is Ok ==> final(mapping)@.len() == old(mapping)@.len(),
            r is Ok ==> forall|k: int|
                0 <= k < old(mapping)@.len() && !(old(self)@.slot.unwrap().offset <= k
                    < old(self)@.slot.unwrap().offset + 8) ==> #[trigger] final(mapping)@[k]
                    == old(mapping)@[k],
    {
        let (offset, file_len) = match &self.mmap_view {
            Some(s) => (s.offset(), s.file_len()),
            None => {
                return Err(MmvError::NotMapped);
            },
        };
        if self.val.type_code() != new_val.type_code() {
            return Err(MmvError::TypeMismatch);
        }
        let len = mapping.len();
        if !mapping.slots_handed_out() || len != file_len || offset > len || len - offset < 8 {
            return Err(MmvError::Layout);
        }
        mapping.write_le(offset, new_val.bits(), 8);
        proof {
            lemma_le64_round_trip(new_val.spec_bits());
        }
        self.val = new_val;
        Ok(())
    }
}

} // verus!
