//! The storage core: a growable, contiguous byte arena holding N instances
//! of one runtime component schema at a fixed stride, with per-slot
//! liveness metadata and declarative per-field initialization.
use vstd::prelude::*;

use crate::codec::{
    bits_int, bits_to_int, int_bits, int_bits_valid, int_to_bits, read_u32_le_at, read_u64_le_at,
    write_u32_le_at, write_u64_le_at,
};
use crate::layout::{
    check_layout_pair, lemma_round_up_props, round_up, spec_round_up, valid_layout_pair,
};
use crate::value::AnyValue;
use vstd::bytes::{
    lemma_auto_spec_u32_to_from_le_bytes, lemma_auto_spec_u64_to_from_le_bytes,
    spec_u32_from_le_bytes, spec_u64_from_le_bytes,
};

verus! {

/// One field of a component: its value kind and its initial value.
/// Float payloads are carried as their raw 32-bit pattern.
#[derive(Clone, Debug)]
pub enum FieldType {
    Int { initial: isize },
    Float { initial: u32 },
    String { initial: String },
    Any { initial: AnyValue },
}

impl FieldType {
    /// Size in bytes of this field's stored representation.
    pub open spec fn spec_size(self) -> nat {
        match self {
            FieldType::Int { .. } => 8,
            FieldType::Float { .. } => 4,
            FieldType::String { .. } => 24,
            FieldType::Any { .. } => 32,
        }
    }

    /// Alignment in bytes of this field's stored representation.
    pub open spec fn spec_align(self) -> nat {
        match self {
            FieldType::Int { .. } => 8,
            FieldType::Float { .. } => 4,
            FieldType::String { .. } => 8,
            FieldType::Any { .. } => 8,
        }
    }

    /// The value a freshly initialized field of this kind holds.
    pub open spec fn initial_value(self) -> AnyValue {
        match self {
            FieldType::Int { initial } => AnyValue::Int(initial),
            FieldType::Float { initial } => AnyValue::Float(initial),
            FieldType::String { initial } => AnyValue::String(initial),
            FieldType::Any { initial } => initial,
        }
    }

    pub fn size(&self) -> (r: usize)
        ensures
            r == self.spec_size(),
    {
        match self {
            FieldType::Int { .. } => 8,
            FieldType::Float { .. } => 4,
            FieldType::String { .. } => 24,
            FieldType::Any { .. } => 32,
        }
    }

    pub fn align(&self) -> (r: usize)
        ensures
            r == self.spec_align(),
    {
        match self {
            FieldType::Int { .. } => 8,
            FieldType::Float { .. } => 4,
            FieldType::String { .. } => 8,
            FieldType::Any { .. } => 8,
        }
    }

    /// Writes this field's initial value at `off`, placing owned text in
    /// the side storage and its index in the arena bytes.
    pub(crate) fn initialize_field(&self, buf: &mut Vec<u8>, off: usize, arena: &mut Vec<String>)
        requires
            off + self.spec_size() <= old(buf)@.len(),
        ensures
            final(buf)@.len() == old(buf)@.len(),
            forall|j: int|
                0 <= j < old(buf)@.len() && !(off <= j < off + self.spec_size()) ==> final(buf)@[j] == old(buf)@[j],
            old(arena)@.is_prefix_of(final(arena)@),
            field_bytes_wf(
                *self,
                final(buf)@.subrange(off as int, off + self.spec_size()),
                final(arena)@,
            ),
            decode_field(
                *self,
                final(buf)@.subrange(off as int, off + self.spec_size()),
                final(arena)@,
            ) == self.initial_value(),
    {
        proof {
            lemma_auto_spec_u64_to_from_le_bytes();
            lemma_auto_spec_u32_to_from_le_bytes();
        }
        let _buf_len: usize = buf.len();
        match self {
            FieldType::Int { initial } => {
                let bits: u64 = int_to_bits(*initial);
                write_u64_le_at(buf, off, bits);
            },
            FieldType::Float { initial } => {
                write_u32_le_at(buf, off, *initial);
            },
            FieldType::String { initial } => {
                let idx: u64 = arena.len() as u64;
                arena.push(initial.clone());
                write_u64_le_at(buf, off, idx);
                proof {
                    let b = buf@.subrange(off as int, off + 24);
                    assert(b.subrange(0, 8) =~= buf@.subrange(off as int, off + 8));
                }
            },
            FieldType::Any { initial } => {
                match initial {
                    AnyValue::Int(v) => {
                        write_u64_le_at(buf, off, 0);
                        let ghost mid = buf@;
                        let bits: u64 = int_to_bits(*v);
                        write_u64_le_at(buf, off + 8, bits);
                        proof {
                            assert(buf@.subrange(off as int, off + 8) =~= mid.subrange(
                                off as int,
                                off + 8,
                            ));
                            let b = buf@.subrange(off as int, off + 32);
                            assert(b.subrange(0, 8) =~= buf@.subrange(off as int, off + 8));
                            assert(b.subrange(8, 16) =~= buf@.subrange(off + 8, off + 16));
                        }
                    },
                    AnyValue::Float(fbits) => {
                        write_u64_le_at(buf, off, 1);
                        let ghost mid = buf@;
                        write_u32_le_at(buf, off + 8, *fbits);
                        proof {
                            assert(buf@.subrange(off as int, off + 8) =~= mid.subrange(
                                off as int,
                                off + 8,
                            ));
                            let b = buf@.subrange(off as int, off + 32);
                            assert(b.subrange(0, 8) =~= buf@.subrange(off as int, off + 8));
                            assert(b.subrange(8, 12) =~= buf@.subrange(off + 8, off + 12));
                        }
                    },
                    AnyValue::String(s) => {
                        write_u64_le_at(buf, off, 2);
                        let ghost mid = buf@;
                        let idx: u64 = arena.len() as u64;
                        arena.push(s.clone());
                        write_u64_le_at(buf, off + 8, idx);
                        proof {
                            assert(buf@.subrange(off as int, off + 8) =~= mid.subrange(
                                off as int,
                                off + 8,
                            ));
                            let b = buf@.subrange(off as int, off + 32);
                            assert(b.subrange(0, 8) =~= buf@.subrange(off as int, off + 8));
                            assert(b.subrange(8, 16) =~= buf@.subrange(off + 8, off + 16));
                        }
                    },
                }
            },
        }
    }
}

/// The bytes of field `k` within the slot that starts at `base`.
pub open spec fn slot_field_slice(buf: Seq<u8>, base: int, fields: Seq<FieldType>, k: int) -> Seq<
    u8,
> {
    buf.subrange(
        base + field_offset(fields, k),
        base + field_offset(fields, k) + fields[k].spec_size(),
    )
}

/// Byte offset just past field `k - 1` under sequential packing; `0` for
/// `k == 0`.
pub open spec fn packed_end(fields: Seq<FieldType>, k: int) -> nat
    decreases k, 0int,
{
    if k <= 0 {
        0
    } else {
        field_offset(fields, k - 1) + fields[k - 1].spec_size()
    }
}

/// Byte offset of field `k`: the smallest offset at or past the previous
/// field's end that satisfies the field's own alignment.
pub open spec fn field_offset(fields: Seq<FieldType>, k: int) -> nat
    decreases k, 1int,
{
    spec_round_up(packed_end(fields, k), fields[k].spec_align())
}

pub proof fn lemma_packed_end_monotone(fields: Seq<FieldType>, j: int, k: int)
    requires
        0 <= j <= k,
    ensures
        packed_end(fields, j) <= packed_end(fields, k),
    decreases k - j,
{
    if j < k {
        lemma_packed_end_monotone(fields, j, k - 1);
        lemma_round_up_props(packed_end(fields, k - 1), fields[k - 1].spec_align());
    }
}

/// Each field's byte range lies inside the packed extent of the whole
/// field list.
pub proof fn lemma_field_range_in_extent(fields: Seq<FieldType>, k: int)
    requires
        0 <= k < fields.len(),
    ensures
        packed_end(fields, k) <= field_offset(fields, k),
        field_offset(fields, k) + fields[k].spec_size() <= packed_end(
            fields,
            fields.len() as int,
        ),
{
    lemma_round_up_props(packed_end(fields, k), fields[k].spec_align());
    lemma_packed_end_monotone(fields, k + 1, fields.len() as int);
}

/// Well-formed stored bytes for one field, relative to the text side
/// storage they may point into.
pub open spec fn field_bytes_wf(ft: FieldType, b: Seq<u8>, arena: Seq<String>) -> bool {
    match ft {
        FieldType::Int { .. } => b.len() == 8 && int_bits_valid(spec_u64_from_le_bytes(b)),
        FieldType::Float { .. } => b.len() == 4,
        FieldType::String { .. } => b.len() == 24 && spec_u64_from_le_bytes(b.subrange(0, 8))
            < arena.len(),
        FieldType::Any { .. } => b.len() == 32 && {
            let tag = spec_u64_from_le_bytes(b.subrange(0, 8));
            &&& tag <= 2
            &&& tag == 0 ==> int_bits_valid(spec_u64_from_le_bytes(b.subrange(8, 16)))
            &&& tag == 2 ==> spec_u64_from_le_bytes(b.subrange(8, 16)) < arena.len()
        },
    }
}

/// The value encoded by one field's stored bytes.
pub open spec fn decode_field(ft: FieldType, b: Seq<u8>, arena: Seq<String>) -> AnyValue {
    match ft {
        FieldType::Int { .. } => AnyValue::Int(bits_int(spec_u64_from_le_bytes(b))),
        FieldType::Float { .. } => AnyValue::Float(spec_u32_from_le_bytes(b)),
        FieldType::String { .. } => AnyValue::String(
            arena[spec_u64_from_le_bytes(b.subrange(0, 8)) as int],
        ),
        FieldType::Any { .. } => {
            let tag = spec_u64_from_le_bytes(b.subrange(0, 8));
            if tag == 0 {
                AnyValue::Int(bits_int(spec_u64_from_le_bytes(b.subrange(8, 16))))
            } else if tag == 1 {
                AnyValue::Float(spec_u32_from_le_bytes(b.subrange(8, 12)))
            } else {
                AnyValue::String(arena[spec_u64_from_le_bytes(b.subrange(8, 16)) as int])
            }
        },
    }
}

/// Growing the text side storage never disturbs what already-stored field
/// bytes decode to.
pub proof fn lemma_decode_arena_extend(ft: FieldType, b: Seq<u8>, a1: Seq<String>, a2: Seq<String>)
    requires
        a1.is_prefix_of(a2),
        field_bytes_wf(ft, b, a1),
    ensures
        field_bytes_wf(ft, b, a2),
        decode_field(ft, b, a2) == decode_field(ft, b, a1),
{
}

/// Why a component schema cannot be turned into a store.
#[derive(Clone, Copy, PartialEq, Eq, Structural, Debug)]
pub enum SchemaError {
    /// The declared (size, align) pair is not a legal layout.
    InvalidSizeAlign,
    /// The declared fields do not pack into the declared size, or need more
    /// alignment than the declared alignment gives.
    IncompatibleFields,
}

/// An ordered field list plus the precomputed total size and alignment of
/// one component instance, as shipped in a compiled application header.
pub struct ComponentType {
    layout_size: usize,
    layout_align: usize,
    fields: Vec<FieldType>,
}

impl ComponentType {
    pub closed spec fn spec_layout_size(self) -> nat {
        self.layout_size as nat
    }

    pub closed spec fn spec_layout_align(self) -> nat {
        self.layout_align as nat
    }

    pub closed spec fn spec_fields(self) -> Seq<FieldType> {
        self.fields@
    }

    /// The declared layout pair is legal, the fields pack within the
    /// declared size, and no field needs more alignment than declared.
    pub open spec fn schema_wf(self) -> bool {
        &&& valid_layout_pair(self.spec_layout_size(), self.spec_layout_align())
        &&& packed_end(self.spec_fields(), self.spec_fields().len() as int)
            <= self.spec_layout_size()
        &&& forall|k: int|
            0 <= k < self.spec_fields().len() ==> (#[trigger] self.spec_fields()[k]).spec_align()
                <= self.spec_layout_align()
    }

    /// The values a freshly initialized slot of this schema holds, field by
    /// field.
    pub open spec fn spec_initial_values(self) -> Seq<AnyValue> {
        Seq::new(self.spec_fields().len(), |k: int| self.spec_fields()[k].initial_value())
    }

    pub fn new(layout_size: usize, layout_align: usize, fields: Vec<FieldType>) -> (r:
        ComponentType)
        ensures
            r.spec_layout_size() == layout_size,
            r.spec_layout_align() == layout_align,
            r.spec_fields() == fields@,
    {
        ComponentType { layout_size, layout_align, fields }
    }

    pub fn layout_size(&self) -> (r: usize)
        ensures
            r == self.spec_layout_size(),
    {
        self.layout_size
    }

    pub fn layout_align(&self) -> (r: usize)
        ensures
            r == self.spec_layout_align(),
    {
        self.layout_align
    }

    /// Byte offset of field `k` under sequential packing, walked from the
    /// front of the slot.
    fn compute_field_offset(&self, k: usize) -> (off: usize)
        requires
            self.schema_wf(),
            k < self.spec_fields().len(),
        ensures
            off == field_offset(self.spec_fields(), k as int),
            off + self.spec_fields()[k as int].spec_size() <= self.spec_layout_size(),
    {
        proof {
            lemma_field_range_in_extent(self.spec_fields(), k as int);
        }
        let mut end: usize = 0;
        let mut j: usize = 0;
        while j < k
            invariant
                j <= k,
                k < self.spec_fields().len(),
                self.schema_wf(),
                end == packed_end(self.spec_fields(), j as int),
            decreases k - j,
        {
            proof {
                lemma_field_range_in_extent(self.spec_fields(), j as int);
                assert(packed_end(self.spec_fields(), self.spec_fields().len() as int)
                    <= self.spec_layout_size());
            }
            let f_align: usize = self.fields[j].align();
            let f_size: usize = self.fields[j].size();
            let off_j: usize = round_up(end, f_align);
            end = off_j + f_size;
            j = j + 1;
        }
        proof {
            lemma_field_range_in_extent(self.spec_fields(), k as int);
        }
        let f_align: usize = self.fields[k].align();
        round_up(end, f_align)
    }

    /// Decides whether the declared fields pack within the declared layout.
    fn check_fields(&self) -> (r: bool)
        requires
            valid_layout_pair(self.spec_layout_size(), self.spec_layout_align()),
        ensures
            r == (packed_end(self.spec_fields(), self.spec_fields().len() as int)
                <= self.spec_layout_size() && forall|k: int|
                0 <= k < self.spec_fields().len() ==> (#[trigger] self.spec_fields()[k]).spec_align()
                    <= self.spec_layout_align()),
    {
        let n: usize = self.fields.len();
        let mut end: usize = 0;
        let mut j: usize = 0;
        while j < n
            invariant
                j <= n,
                n == self.spec_fields().len(),
                valid_layout_pair(self.spec_layout_size(), self.spec_layout_align()),
                end == packed_end(self.spec_fields(), j as int),
                end <= self.spec_layout_size(),
                forall|k: int|
                    0 <= k < j ==> (#[trigger] self.spec_fields()[k]).spec_align()
                        <= self.spec_layout_align(),
            decreases n - j,
        {
            let f_align: usize = self.fields[j].align();
            let f_size: usize = self.fields[j].size();
            if f_align > self.layout_align {
                return false;
            }
            let off_j: usize = round_up(end, f_align);
            if off_j > self.layout_size || f_size > self.layout_size - off_j {
                proof {
                    lemma_packed_end_monotone(
                        self.spec_fields(),
                        j + 1,
                        self.spec_fields().len() as int,
                    );
                }
                return false;
            }
            end = off_j + f_size;
            j = j + 1;
        }
        true
    }

    /// Walks the fields in declared order and writes each field's initial
    /// value at its packed offset within the slot that starts at `base`.
    fn initialize_slot(&self, buf: &mut Vec<u8>, base: usize, arena: &mut Vec<String>)
        requires
            self.schema_wf(),
            base + self.spec_layout_size() <= old(buf)@.len(),
        ensures
            final(buf)@.len() == old(buf)@.len(),
            forall|j: int|
                0 <= j < old(buf)@.len() && !(base <= j < base + self.spec_layout_size())
                    ==> final(buf)@[j] == old(buf)@[j],
            old(arena)@.is_prefix_of(final(arena)@),
            forall|k: int|
                0 <= k < self.spec_fields().len() ==> {
                    &&& field_bytes_wf(
                        self.spec_fields()[k],
                        #[trigger] slot_field_slice(
                            final(buf)@,
                            base as int,
                            self.spec_fields(),
                            k,
                        ),
                        final(arena)@,
                    )
                    &&& decode_field(
                        self.spec_fields()[k],
                        slot_field_slice(final(buf)@, base as int, self.spec_fields(), k),
                        final(arena)@,
                    ) == self.spec_fields()[k].initial_value()
                },
    {
        let n: usize = self.fields.len();
        let buf_len: usize = buf.len();
        let mut end: usize = 0;
        let mut k: usize = 0;
        while k < n
            invariant
                k <= n,
                n == self.spec_fields().len(),
                self.schema_wf(),
                base + self.spec_layout_size() <= buf@.len(),
                buf@.len() == buf_len,
                buf@.len() == old(buf)@.len(),
                end == packed_end(self.spec_fields(), k as int),
                old(arena)@.is_prefix_of(arena@),
                forall|j: int|
                    0 <= j < buf@.len() && !(base <= j < base + end) ==> buf@[j] == old(buf)@[j],
                forall|q: int|
                    0 <= q < k ==> {
                        &&& field_bytes_wf(
                            self.spec_fields()[q],
                            #[trigger] slot_field_slice(buf@, base as int, self.spec_fields(), q),
                            arena@,
                        )
                        &&& decode_field(
                            self.spec_fields()[q],
                            slot_field_slice(buf@, base as int, self.spec_fields(), q),
                            arena@,
                        ) == self.spec_fields()[q].initial_value()
                    },
            decreases n - k,
        {
            proof {
                lemma_field_range_in_extent(self.spec_fields(), k as int);
            }
            let f_size: usize = self.fields[k].size();
            let f_align: usize = self.fields[k].align();
            let off: usize = round_up(end, f_align);
            let ghost pre_buf = buf@;
            let ghost pre_arena = arena@;
            self.fields[k].initialize_field(buf, base + off, arena);
            proof {
                assert forall|q: int| 0 <= q < k implies {
                    &&& field_bytes_wf(
                        self.spec_fields()[q],
                        #[trigger] slot_field_slice(buf@, base as int, self.spec_fields(), q),
                        arena@,
                    )
                    &&& decode_field(
                        self.spec_fields()[q],
                        slot_field_slice(buf@, base as int, self.spec_fields(), q),
                        arena@,
                    ) == self.spec_fields()[q].initial_value()
                } by {
                    lemma_field_range_in_extent(self.spec_fields(), q);
                    lemma_packed_end_monotone(self.spec_fields(), q + 1, k as int);
                    assert(slot_field_slice(buf@, base as int, self.spec_fields(), q)
                        =~= slot_field_slice(pre_buf, base as int, self.spec_fields(), q));
                    lemma_decode_arena_extend(
                        self.spec_fields()[q],
                        slot_field_slice(pre_buf, base as int, self.spec_fields(), q),
                        pre_arena,
                        arena@,
                    );
                }
                assert(slot_field_slice(buf@, base as int, self.spec_fields(), k as int)
                    =~= buf@.subrange(
                    base + off,
                    base + off + self.spec_fields()[k as int].spec_size(),
                ));
            }
            end = off + f_size;
            k = k + 1;
        }
    }
}

/// Per-slot liveness metadata.
pub struct ComponentMetadata {
    pub is_alive: bool,
}

impl Default for ComponentMetadata {
    fn default() -> (r: Self)
        ensures
            r.is_alive,
    {
        Self { is_alive: true }
    }
}

/// A non-owning view onto one slot's raw bytes, valid only while the owning
/// store is alive and not reallocated.
#[derive(Clone, Copy)]
pub struct ComponentRef<'a> {
    bytes: &'a [u8],
}

impl<'a> View for ComponentRef<'a> {
    type V = Seq<u8>;

    closed spec fn view(&self) -> Seq<u8> {
        self.bytes@
    }
}

impl<'a> ComponentRef<'a> {
    /// Returns the byte slice covering the whole component slot.
    ///
    /// The inter-field padding bytes of the slot carry no value: only the
    /// bytes at the schema's field offsets are meaningful, so the range
    /// must not be interpreted as one initialized block.
    pub fn as_ptr(&self) -> (r: &'a [u8])
        ensures
            r@ == self@,
    {
        self.bytes
    }
}

/// An index returned by slot allocation.
#[derive(Hash, PartialEq, Eq, PartialOrd, Ord, Debug)]
pub struct ComponentIndex(pub usize);

/// Factor by which the arena's byte capacity grows when it is full.
pub const COMPONENTS_VEC_GROWTH_RATE: usize = 2;

/// The storage core for one component schema: a contiguous byte arena of
/// whole slots, a parallel liveness array, and side storage for owned text
/// payloads.
///
/// The store is a single-writer structure: it provides no internal
/// locking, so all mutation must be externally serialized. Borrowed slot
/// handles are tied to the store's lifetime, and the borrow rules prevent
/// holding one across a growth-triggering insertion, which would otherwise
/// leave it dangling.
pub struct ComponentVec {
    components_buf: Vec<u8>,
    text_arena: Vec<String>,
    components_metadata: Vec<ComponentMetadata>,
    component_count: usize,
    component_type: ComponentType,
    array_offset: usize,
}

impl ComponentVec {
    /// Byte distance between consecutive slots.
    pub closed spec fn spec_stride(self) -> nat {
        self.array_offset as nat
    }

    /// Length of the arena in bytes.
    pub closed spec fn spec_bytes_capacity(self) -> nat {
        self.components_buf@.len()
    }

    /// Capacity in whole slots.
    pub open spec fn spec_capacity(self) -> nat {
        self.spec_bytes_capacity() / self.spec_stride()
    }

    /// Number of allocated slots.
    pub closed spec fn spec_component_count(self) -> nat {
        self.component_count as nat
    }

    pub closed spec fn spec_component_type(self) -> ComponentType {
        self.component_type
    }

    /// The raw bytes of slot `i`.
    pub closed spec fn spec_slot_bytes(self, i: int) -> Seq<u8> {
        self.components_buf@.subrange(
            i * self.spec_stride(),
            i * self.spec_stride() + self.spec_stride(),
        )
    }

    /// The stored bytes of field `k` of slot `i`.
    pub closed spec fn spec_field_bytes(self, i: int, k: int) -> Seq<u8> {
        let fields = self.spec_component_type().spec_fields();
        self.components_buf@.subrange(
            i * self.spec_stride() + field_offset(fields, k),
            i * self.spec_stride() + field_offset(fields, k) + fields[k].spec_size(),
        )
    }

    /// The value field `k` of slot `i` holds.
    pub open spec fn spec_field_value(self, i: int, k: int) -> AnyValue {
        decode_field(
            self.spec_component_type().spec_fields()[k],
            self.spec_field_bytes(i, k),
            self.spec_text_arena(),
        )
    }

    pub closed spec fn spec_text_arena(self) -> Seq<String> {
        self.text_arena@
    }

    /// The values of all fields of slot `i`, in schema order.
    pub open spec fn spec_slot_values(self, i: int) -> Seq<AnyValue> {
        Seq::new(
            self.spec_component_type().spec_fields().len(),
            |k: int| self.spec_field_value(i, k),
        )
    }

    /// The store's internal invariant: a well-formed schema, a stride that
    /// is the declared size rounded up to the declared alignment, an arena
    /// of whole slots, liveness metadata in step with the slot count, and
    /// well-formed stored bytes for every allocated field.
    pub closed spec fn wf(self) -> bool {
        &&& self.component_type.schema_wf()
        &&& self.array_offset == spec_round_up(
            self.component_type.spec_layout_size(),
            self.component_type.spec_layout_align(),
        )
        &&& self.array_offset == self.component_type.spec_layout_size()
        &&& self.spec_bytes_capacity() % self.spec_stride() == 0
        &&& self.spec_component_count() <= self.spec_capacity()
        &&& self.components_metadata@.len() == self.component_count
        &&& forall|i: int|
            0 <= i < self.component_count ==> (#[trigger] self.components_metadata@[i]).is_alive
        &&& forall|i: int, k: int|
            0 <= i < self.component_count && 0 <= k
                < self.spec_component_type().spec_fields().len() ==> field_bytes_wf(
                self.spec_component_type().spec_fields()[k],
                #[trigger] self.spec_field_bytes(i, k),
                self.spec_text_arena(),
            )
    }

    /// Converts a component schema into an empty store; fails exactly when
    /// the schema is not well formed.
    pub fn from(value: ComponentType) -> (r: Result<ComponentVec, SchemaError>)
        ensures
            (r is Ok) <==> value.schema_wf(),
            r matches Ok(cv) ==> {
                &&& cv.wf()
                &&& cv.spec_component_type() == value
                &&& cv.spec_component_count() == 0
                &&& cv.spec_bytes_capacity() == 0
                &&& cv.spec_capacity() == 0
            },
            r matches Err(e) ==> (e == SchemaError::InvalidSizeAlign <==> !valid_layout_pair(
                value.spec_layout_size(),
                value.spec_layout_align(),
            )),
    {
        if !check_layout_pair(value.layout_size, value.layout_align) {
            return Err(SchemaError::InvalidSizeAlign);
        }
        if !value.check_fields() {
            return Err(SchemaError::IncompatibleFields);
        }
        proof {
            lemma_round_up_props(value.spec_layout_size(), value.spec_layout_align());
        }
        // the declared size is a whole number of alignment units, so the
        // padding rounding that defines the stride leaves it unchanged
        let array_offset: usize = value.layout_size;
        let cv = ComponentVec {
            components_buf: Vec::new(),
            text_arena: Vec::new(),
            components_metadata: Vec::new(),
            component_count: 0,
            component_type: value,
            array_offset,
        };
        proof {
            let s = array_offset as int;
            vstd::arithmetic::div_mod::lemma_mod_multiples_basic(0, s);
            vstd::arithmetic::div_mod::lemma_div_multiples_vanish(0, s);
            assert(0 * s == s * 0 && s * 0 == 0) by (nonlinear_arith);
            assert(cv.spec_bytes_capacity() == 0);
            assert(cv.spec_bytes_capacity() % cv.spec_stride() == 0);
            assert(cv.spec_capacity() == 0);
        }
        Ok(cv)
    }

    pub fn component_count(&self) -> (r: usize)
        ensures
            r == self.spec_component_count(),
    {
        self.component_count
    }

    /// Length of the current arena in bytes.
    pub fn bytes_capacity(&self) -> (r: usize)
        ensures
            r == self.spec_bytes_capacity(),
    {
        self.components_buf.len()
    }

    /// Capacity in whole slots.
    pub fn capacity(&self) -> (r: usize)
        requires
            self.wf(),
        ensures
            r == self.spec_capacity(),
    {
        self.components_buf.len() / self.array_offset
    }

    /// Byte distance between consecutive slots.
    pub fn stride(&self) -> (r: usize)
        ensures
            r == self.spec_stride(),
    {
        self.array_offset
    }

    /// The arena always holds a whole number of slots.
    pub proof fn lemma_bytes_capacity_multiple_of_stride(self)
        requires
            self.wf(),
        ensures
            self.spec_bytes_capacity() % self.spec_stride() == 0,
            self.spec_capacity() * self.spec_stride() == self.spec_bytes_capacity(),
    {
        let len = self.spec_bytes_capacity();
        let s = self.spec_stride();
        assert(len % s == 0 ==> (len / s) * s == len) by (nonlinear_arith)
            requires
                s > 0,
        ;
    }

    /// Slot `i`'s byte range lies inside the arena.
    proof fn lemma_slot_range_in_buf(self, i: int)
        requires
            self.wf(),
            0 <= i < self.spec_component_count(),
        ensures
            i * self.spec_stride() + self.spec_stride() <= self.spec_bytes_capacity(),
            i * self.spec_stride() >= 0,
    {
        self.lemma_bytes_capacity_multiple_of_stride();
        let s = self.spec_stride();
        let cap = self.spec_capacity();
        assert(i * s >= 0 && i * s + s <= cap * s) by (nonlinear_arith)
            requires
                0 <= i,
                i + 1 <= cap,
                s > 0,
        ;
    }

    /// Appends one slot, default-initializes every field per the schema,
    /// and returns the new slot's index. Grows the arena by doubling when
    /// it is full; growth preserves every previously written slot byte for
    /// byte, so no stored value changes.
    pub fn make_component(&mut self) -> (new_index: usize)
        requires
            old(self).wf(),
            old(self).spec_component_count() == old(self).spec_capacity() ==> old(self).spec_bytes_capacity() * COMPONENTS_VEC_GROWTH_RATE <= usize::MAX,
        ensures
            final(self).wf(),
            new_index == old(self).spec_component_count(),
            final(self).spec_component_count() == old(self).spec_component_count() + 1,
            final(self).spec_component_type() == old(self).spec_component_type(),
            final(self).spec_stride() == old(self).spec_stride(),
            final(self).spec_capacity() >= old(self).spec_capacity(),
            final(self).spec_bytes_capacity() >= old(self).spec_bytes_capacity(),
            forall|i: int|
                0 <= i < old(self).spec_component_count() ==> #[trigger] final(self).spec_slot_bytes(i)
                    == old(self).spec_slot_bytes(i),
            forall|i: int|
                0 <= i < old(self).spec_component_count() ==> #[trigger] final(self).spec_slot_values(i)
                    == old(self).spec_slot_values(i),
            final(self).spec_slot_values(new_index as int) == old(self).spec_component_type().spec_initial_values(),
    {
        proof {
            old(self).lemma_bytes_capacity_multiple_of_stride();
        }
        let new_index: usize = self.component_count;
        let stride: usize = self.array_offset;
        let old_len: usize = self.components_buf.len();
        let cap: usize = old_len / stride;
        proof {
            assert(cap <= old_len) by (nonlinear_arith)
                requires
                    stride >= 1,
                    cap == old_len / stride,
                    old_len >= 0,
            ;
        }
        self.component_count = new_index + 1;
        if new_index >= cap {
            let new_len: usize = if old_len == 0 {
                stride
            } else {
                old_len * COMPONENTS_VEC_GROWTH_RATE
            };
            self.components_buf.resize(new_len, 0u8);
            proof {
                let s = stride as int;
                let ol = old_len as int;
                let q = ol / s;
                vstd::arithmetic::div_mod::lemma_fundamental_div_mod(ol, s);
                assert(2 * ol == s * (2 * q) && s == s * 1 && 0 == s * 0) by (nonlinear_arith)
                    requires
                        ol == s * q,
                ;
                vstd::arithmetic::div_mod::lemma_mod_multiples_basic(2 * q, s);
                vstd::arithmetic::div_mod::lemma_div_multiples_vanish(2 * q, s);
                vstd::arithmetic::div_mod::lemma_mod_multiples_basic(1, s);
                vstd::arithmetic::div_mod::lemma_div_multiples_vanish(1, s);
                vstd::arithmetic::div_mod::lemma_div_multiples_vanish(0, s);
                assert((2 * q) * s == s * (2 * q) && 1 * s == s * 1 && 0 * s == s * 0);
                assert((self.components_buf@.len() as int) % s == 0);
                if ol == 0 {
                    assert((self.components_buf@.len() as int) / s == 1);
                } else {
                    assert(s * q > 0 && s >= 1 ==> q >= 1) by (nonlinear_arith);
                    assert((self.components_buf@.len() as int) / s == 2 * q);
                }
            }
        }
        self.components_metadata.push(ComponentMetadata::default());
        proof {
            let s = stride as int;
            let nl = self.components_buf@.len() as int;
            let cap2 = nl / s;
            assert(nl % s == 0);
            assert(new_index + 1 <= cap2);
            vstd::arithmetic::div_mod::lemma_fundamental_div_mod(nl, s);
            assert(nl == s * cap2);
            vstd::arithmetic::mul::lemma_mul_inequality(new_index + 1, cap2, s);
            assert((new_index + 1) * s == new_index * s + s) by (nonlinear_arith);
            assert(cap2 * s == s * cap2) by (nonlinear_arith);
            assert(new_index * s + s <= nl);
            assert(new_index * s >= 0) by (nonlinear_arith)
                requires
                    s >= 1,
                    0 <= new_index,
            ;
        }
        let base: usize = new_index * stride;
        self.component_type.initialize_slot(
            &mut self.components_buf,
            base,
            &mut self.text_arena,
        );
        proof {
            let fields = self.component_type.spec_fields();
            let s = stride as int;
            // every old slot's field bytes sit below the new slot's base
            assert forall|i: int, k: int|
                0 <= i < old(self).component_count && 0 <= k < fields.len() implies {
                &&& self.spec_field_bytes(i, k) =~= old(self).spec_field_bytes(i, k)
                &&& field_bytes_wf(fields[k], self.spec_field_bytes(i, k), self.spec_text_arena())
                &&& self.spec_field_value(i, k) == old(self).spec_field_value(i, k)
            } by {
                lemma_field_range_in_extent(fields, k);
                assert(i * s + s <= new_index * s) by (nonlinear_arith)
                    requires
                        s >= 1,
                        0 <= i,
                        i + 1 <= new_index,
                ;
                old(self).lemma_slot_range_in_buf(i);
                assert(self.spec_field_bytes(i, k) =~= old(self).spec_field_bytes(i, k));
                lemma_decode_arena_extend(
                    fields[k],
                    old(self).spec_field_bytes(i, k),
                    old(self).spec_text_arena(),
                    self.spec_text_arena(),
                );
            }
            assert forall|i: int| 0 <= i < old(self).component_count implies #[trigger] self
                .spec_slot_bytes(i) == old(self).spec_slot_bytes(i) by {
                assert(i * s + s <= new_index * s) by (nonlinear_arith)
                    requires
                        s >= 1,
                        0 <= i,
                        i + 1 <= new_index,
                ;
                old(self).lemma_slot_range_in_buf(i);
                assert(self.spec_slot_bytes(i) =~= old(self).spec_slot_bytes(i));
            }
            // the new slot's field bytes are what initialize_slot wrote
            assert forall|k: int| 0 <= k < fields.len() implies {
                &&& field_bytes_wf(
                    fields[k],
                    self.spec_field_bytes(new_index as int, k),
                    self.spec_text_arena(),
                )
                &&& self.spec_field_value(new_index as int, k) == fields[k].initial_value()
            } by {
                assert(self.spec_field_bytes(new_index as int, k) =~= slot_field_slice(
                    self.components_buf@,
                    base as int,
                    fields,
                    k,
                ));
            }
            assert forall|i: int| 0 <= i < old(self).component_count implies #[trigger] self
                .spec_slot_values(i) == old(self).spec_slot_values(i) by {
                assert(self.spec_slot_values(i) =~= old(self).spec_slot_values(i));
            }
            assert(self.spec_slot_values(new_index as int) =~= old(self).spec_component_type().spec_initial_values());
        }
        new_index
    }

    /// Looks a slot up by index: a handle over the slot's raw bytes when
    /// the index is in range and the slot is alive, "absent" otherwise.
    pub fn get_component(&self, index: usize) -> (r: Option<ComponentRef>)
        requires
            self.wf(),
        ensures
            (r is Some) <==> index < self.spec_component_count(),
            r matches Some(c) ==> c@ == self.spec_slot_bytes(index as int),
    {
        if index >= self.components_metadata.len() {
            return None;
        }
        let metadata = &self.components_metadata[index];
        if !metadata.is_alive {
            return None;
        }
        let _buf_len: usize = self.components_buf.len();
        proof {
            self.lemma_slot_range_in_buf(index as int);
        }
        let start: usize = index * self.array_offset;
        let bytes: &[u8] = vstd::slice::slice_subrange(
            self.components_buf.as_slice(),
            start,
            start + self.array_offset,
        );
        Some(ComponentRef { bytes })
    }

    /// Reads one field of one slot back as a value: "absent" when the slot
    /// index or the field index is out of range.
    pub fn get_field(&self, index: usize, field: usize) -> (r: Option<AnyValue>)
        requires
            self.wf(),
        ensures
            (r is Some) <==> (index < self.spec_component_count() && field
                < self.spec_component_type().spec_fields().len()),
            r matches Some(v) ==> v == self.spec_field_value(index as int, field as int),
    {
        if index >= self.component_count {
            return None;
        }
        if field >= self.component_type.fields.len() {
            return None;
        }
        let _buf_len: usize = self.components_buf.len();
        proof {
            self.lemma_slot_range_in_buf(index as int);
            lemma_field_range_in_extent(self.component_type.spec_fields(), field as int);
            lemma_auto_spec_u64_to_from_le_bytes();
        }
        let off: usize = self.component_type.compute_field_offset(field);
        let start: usize = index * self.array_offset + off;
        let ghost b = self.spec_field_bytes(index as int, field as int);
        let r: AnyValue = match &self.component_type.fields[field] {
            FieldType::Int { .. } => {
                let bits: u64 = read_u64_le_at(&self.components_buf, start);
                proof {
                    assert(b =~= self.components_buf@.subrange(start as int, start + 8));
                }
                AnyValue::Int(bits_to_int(bits))
            },
            FieldType::Float { .. } => {
                let fbits: u32 = read_u32_le_at(&self.components_buf, start);
                proof {
                    assert(b =~= self.components_buf@.subrange(start as int, start + 4));
                }
                AnyValue::Float(fbits)
            },
            FieldType::String { .. } => {
                let idx: u64 = read_u64_le_at(&self.components_buf, start);
                proof {
                    assert(b.subrange(0, 8) =~= self.components_buf@.subrange(
                        start as int,
                        start + 8,
                    ));
                }
                let _arena_len: usize = self.text_arena.len();
                let s: String = self.text_arena[idx as usize].clone();
                AnyValue::String(s)
            },
            FieldType::Any { .. } => {
                let tag: u64 = read_u64_le_at(&self.components_buf, start);
                proof {
                    assert(b.subrange(0, 8) =~= self.components_buf@.subrange(
                        start as int,
                        start + 8,
                    ));
                    assert(b.subrange(8, 16) =~= self.components_buf@.subrange(
                        start + 8,
                        start + 16,
                    ));
                    assert(b.subrange(8, 12) =~= self.components_buf@.subrange(
                        start + 8,
                        start + 12,
                    ));
                }
                if tag == 0 {
                    let bits: u64 = read_u64_le_at(&self.components_buf, start + 8);
                    AnyValue::Int(bits_to_int(bits))
                } else if tag == 1 {
                    let fbits: u32 = read_u32_le_at(&self.components_buf, start + 8);
                    AnyValue::Float(fbits)
                } else {
                    let idx: u64 = read_u64_le_at(&self.components_buf, start + 8);
                    let _arena_len: usize = self.text_arena.len();
                    let s: String = self.text_arena[idx as usize].clone();
                    AnyValue::String(s)
                }
            },
        };
        Some(r)
    }
}

} // verus!
