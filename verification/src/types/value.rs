//! Value types: the owned tree used for building and encoding, and the
//! borrowed view tree a decode returns. Both map onto the same abstract
//! model, [`SpecValue`], over which all contracts are stated.
use vstd::prelude::*;
use vstd::string::StringSliceAdditionalSpecFns;
use vstd::utf8::encode_utf8;

use crate::format::{PATH_SEPARATOR, SpecValue};
use super::array::{Array, ArrayView};
use super::file::{File, FileData, FileHandle, FileView, NoHandle};

verus! {

/// The position of the first path-separator byte at or after `start`, or
/// the end of the path if none follows.
pub open spec fn sep_or_end(path: Seq<u8>, start: int) -> int
    decreases path.len() - start,
{
    if start < 0 || start >= path.len() {
        path.len() as int
    } else if path[start] == PATH_SEPARATOR {
        start
    } else {
        sep_or_end(path, start + 1)
    }
}

/// First-match lookup of a key among an object's entries, in encoded order.
pub open spec fn spec_lookup(es: Seq<(Seq<u8>, SpecValue)>, key: Seq<u8>) -> Option<SpecValue>
    decreases es.len(),
{
    if es.len() == 0 {
        None
    } else if es[0].0 == key {
        Some(es[0].1)
    } else {
        spec_lookup(es.drop_first(), key)
    }
}

/// Resolve the path suffix beginning at `start` against `v`: take the
/// segment up to the next separator, require `v` to be an object, look the
/// segment up (first match wins), and descend until the path is consumed.
pub open spec fn spec_get_from(v: SpecValue, path: Seq<u8>, start: int) -> Option<SpecValue>
    decreases path.len() - start + 1,
{
    let e = sep_or_end(path, start);
    if start <= e <= path.len() {
        let seg = path.subrange(start, e);
        match v {
            SpecValue::Object(es) => match spec_lookup(es, seg) {
                None => None,
                Some(child) => if e == path.len() {
                    Some(child)
                } else {
                    spec_get_from(child, path, e + 1)
                },
            },
            _ => None,
        }
    } else {
        None
    }
}

/// Value kind tags.
#[derive(Debug, Clone, Copy, PartialEq, Eq, Structural)]
pub enum ValueTag {
    Bool,
    Int,
    Float,
    String,
    Array,
    File,
    Object,
    List,
}

impl ValueTag {
    /// The wire tag byte of this kind.
    pub open spec fn spec_to_u8(self) -> u8 {
        match self {
            ValueTag::Bool => 0x01,
            ValueTag::Int => 0x02,
            ValueTag::Float => 0x03,
            ValueTag::String => 0x04,
            ValueTag::Array => 0x05,
            ValueTag::File => 0x06,
            ValueTag::Object => 0x07,
            ValueTag::List => 0x08,
        }
    }

    /// The kind a wire tag byte stands for, if any.
    pub open spec fn spec_from_u8(tag: u8) -> Option<ValueTag> {
        if tag == 0x01 {
            Some(ValueTag::Bool)
        } else if tag == 0x02 {
            Some(ValueTag::Int)
        } else if tag == 0x03 {
            Some(ValueTag::Float)
        } else if tag == 0x04 {
            Some(ValueTag::String)
        } else if tag == 0x05 {
            Some(ValueTag::Array)
        } else if tag == 0x06 {
            Some(ValueTag::File)
        } else if tag == 0x07 {
            Some(ValueTag::Object)
        } else if tag == 0x08 {
            Some(ValueTag::List)
        } else {
            None
        }
    }

    /// Try to convert from a wire tag byte.
    pub fn from_u8(tag: u8) -> (r: Option<Self>)
        ensures
            r == Self::spec_from_u8(tag),
    {
        match tag {
            0x01 => Some(ValueTag::Bool),
            0x02 => Some(ValueTag::Int),
            0x03 => Some(ValueTag::Float),
            0x04 => Some(ValueTag::String),
            0x05 => Some(ValueTag::Array),
            0x06 => Some(ValueTag::File),
            0x07 => Some(ValueTag::Object),
            0x08 => Some(ValueTag::List),
            _ => None,
        }
    }

    /// The wire tag byte of this kind.
    pub fn to_u8(self) -> (tag: u8)
        ensures
            tag == self.spec_to_u8(),
    {
        match self {
            ValueTag::Bool => 0x01,
            ValueTag::Int => 0x02,
            ValueTag::Float => 0x03,
            ValueTag::String => 0x04,
            ValueTag::Array => 0x05,
            ValueTag::File => 0x06,
            ValueTag::Object => 0x07,
            ValueTag::List => 0x08,
        }
    }
}

/// The kind tag of an abstract value.
pub open spec fn spec_tag_of(v: SpecValue) -> ValueTag {
    match v {
        SpecValue::Bool(_) => ValueTag::Bool,
        SpecValue::Int(_) => ValueTag::Int,
        SpecValue::Float(_) => ValueTag::Float,
        SpecValue::Str(_) => ValueTag::String,
        SpecValue::Array { .. } => ValueTag::Array,
        SpecValue::File { .. } => ValueTag::File,
        SpecValue::Object(_) => ValueTag::Object,
        SpecValue::List(_) => ValueTag::List,
    }
}

/// Owned value (for building and encoding).
///
/// `Float` holds the IEEE 754 bit pattern of a 64-bit float; the codec never
/// computes with the scalar itself. `H` is the streaming source type of any
/// file payloads in the tree; a tree holding only in-memory payloads uses
/// the default [`NoHandle`].
pub enum Value<H: FileHandle = NoHandle> {
    Bool(bool),
    Int(i64),
    /// IEEE 754 bit pattern of a 64-bit float.
    Float(u64),
    String(String),
    Array(Array),
    File(File<H>),
    Object(Vec<(String, Value<H>)>),
    List(Vec<Value<H>>),
}

/// The abstract value an owned value stands for.
pub open spec fn value_view<H: FileHandle>(v: Value<H>) -> SpecValue
    decreases v,
{
    match v {
        Value::Bool(b) => SpecValue::Bool(b),
        Value::Int(i) => SpecValue::Int(i),
        Value::Float(bits) => SpecValue::Float(bits),
        Value::String(s) => SpecValue::Str(encode_utf8(s@)),
        Value::Array(a) => SpecValue::Array { dtype: a.dtype, shape: a.shape@, data: a.data@ },
        Value::File(f) => SpecValue::File { mime: f.spec_mime_bytes(), data: f.data.spec_data() },
        Value::Object(es) => SpecValue::Object(owned_entries_view(es@)),
        Value::List(vs) => SpecValue::List(owned_items_view(vs@)),
    }
}

pub open spec fn owned_entries_view<H: FileHandle>(es: Seq<(String, Value<H>)>) -> Seq<
    (Seq<u8>, SpecValue),
>
    decreases es,
{
    if es.len() == 0 {
        Seq::empty()
    } else {
        seq![(encode_utf8(es[0].0@), value_view(es[0].1))] + owned_entries_view(es.drop_first())
    }
}

pub open spec fn owned_items_view<H: FileHandle>(vs: Seq<Value<H>>) -> Seq<SpecValue>
    decreases vs,
{
    if vs.len() == 0 {
        Seq::empty()
    } else {
        seq![value_view(vs[0])] + owned_items_view(vs.drop_first())
    }
}

impl<H: FileHandle> View for Value<H> {
    type V = SpecValue;

    open spec fn view(&self) -> SpecValue {
        value_view(*self)
    }
}

/// True when every file payload in the tree is in-memory bytes, so that
/// encoding the tree reads no streaming source.
pub open spec fn handle_free<H: FileHandle>(v: Value<H>) -> bool
    decreases v,
{
    match v {
        Value::File(f) => f.data is Bytes,
        Value::Object(es) => entries_handle_free(es@),
        Value::List(vs) => items_handle_free(vs@),
        _ => true,
    }
}

pub open spec fn entries_handle_free<H: FileHandle>(es: Seq<(String, Value<H>)>) -> bool
    decreases es,
{
    if es.len() == 0 {
        true
    } else {
        handle_free(es[0].1) && entries_handle_free(es.drop_first())
    }
}

pub open spec fn items_handle_free<H: FileHandle>(vs: Seq<Value<H>>) -> bool
    decreases vs,
{
    if vs.len() == 0 {
        true
    } else {
        handle_free(vs[0]) && items_handle_free(vs.drop_first())
    }
}

impl<H: FileHandle> Value<H> {
    /// Get the kind tag of this value.
    pub fn tag(&self) -> (t: ValueTag)
        ensures
            t == spec_tag_of(self@),
    {
        match self {
            Value::Bool(_) => ValueTag::Bool,
            Value::Int(_) => ValueTag::Int,
            Value::Float(_) => ValueTag::Float,
            Value::String(_) => ValueTag::String,
            Value::Array(_) => ValueTag::Array,
            Value::File(_) => ValueTag::File,
            Value::Object(_) => ValueTag::Object,
            Value::List(_) => ValueTag::List,
        }
    }
}

/// Decoded value: a view whose string, array-payload and file-payload fields
/// borrow from the buffer the artifact was decoded from. No view outlives
/// that buffer; Rust's lifetimes enforce the relationship.
#[derive(Debug)]
pub enum ValueView<'a> {
    Bool(bool),
    Int(i64),
    /// IEEE 754 bit pattern of a 64-bit float.
    Float(u64),
    String(&'a str),
    Array(ArrayView<'a>),
    File(FileView<'a>),
    Object(Vec<(&'a str, ValueView<'a>)>),
    List(Vec<ValueView<'a>>),
}

/// The abstract value a borrowed view stands for.
pub open spec fn borrowed_view(v: ValueView) -> SpecValue
    decreases v,
{
    match v {
        ValueView::Bool(b) => SpecValue::Bool(b),
        ValueView::Int(i) => SpecValue::Int(i),
        ValueView::Float(bits) => SpecValue::Float(bits),
        ValueView::String(s) => SpecValue::Str(s.spec_bytes()),
        ValueView::Array(a) => SpecValue::Array { dtype: a.dtype, shape: a.shape@, data: a.data@ },
        ValueView::File(f) => SpecValue::File { mime: f.mimetype.spec_bytes(), data: f.data@ },
        ValueView::Object(es) => SpecValue::Object(borrowed_entries_view(es@)),
        ValueView::List(vs) => SpecValue::List(borrowed_items_view(vs@)),
    }
}

pub open spec fn borrowed_entries_view(es: Seq<(&str, ValueView)>) -> Seq<(Seq<u8>, SpecValue)>
    decreases es,
{
    if es.len() == 0 {
        Seq::empty()
    } else {
        seq![(es[0].0.spec_bytes(), borrowed_view(es[0].1))] + borrowed_entries_view(
            es.drop_first(),
        )
    }
}

pub open spec fn borrowed_items_view(vs: Seq<ValueView>) -> Seq<SpecValue>
    decreases vs,
{
    if vs.len() == 0 {
        Seq::empty()
    } else {
        seq![borrowed_view(vs[0])] + borrowed_items_view(vs.drop_first())
    }
}

impl<'a> View for ValueView<'a> {
    type V = SpecValue;

    open spec fn view(&self) -> SpecValue {
        borrowed_view(*self)
    }
}

/// The position of the first separator at or after `from`, or the path's
/// end.
#[verifier::loop_isolation(false)]
fn find_sep(b: &[u8], from: usize) -> (r: usize)
    requires
        from <= b@.len(),
    ensures
        r as int == sep_or_end(b@, from as int),
        from <= r <= b@.len(),
{
    let mut i: usize = from;
    while i < b.len()
        invariant
            from <= i <= b@.len(),
            sep_or_end(b@, from as int) == sep_or_end(b@, i as int),
        decreases b@.len() - i,
    {
        if b[i] == PATH_SEPARATOR {
            proof {
                assert(sep_or_end(b@, i as int) == i);
            }
            return i;
        }
        i = i + 1;
    }
    i
}

/// Linear first-match lookup of the path segment `pb[start..e]` among the
/// entries of an object view.
#[verifier::loop_isolation(false)]
fn lookup_entry<'a, 'b>(
    es: &'b Vec<(&'a str, ValueView<'a>)>,
    pb: &[u8],
    start: usize,
    e: usize,
) -> (r: Option<&'b ValueView<'a>>)
    requires
        start <= e <= pb@.len(),
    ensures
        match r {
            Some(child) => spec_lookup(
                borrowed_entries_view(es@),
                pb@.subrange(start as int, e as int),
            ) == Some(child@),
            None => spec_lookup(
                borrowed_entries_view(es@),
                pb@.subrange(start as int, e as int),
            ) is None,
        },
{
    let ghost bev = borrowed_entries_view(es@);
    let ghost seg = pb@.subrange(start as int, e as int);
    proof {
        lemma_borrowed_entries_view_props(es@);
    }
    let segment = vstd::slice::slice_subrange(pb, start, e);
    proof {
        assert(bev.skip(0) =~= bev);
    }
    let mut j: usize = 0;
    while j < es.len()
        invariant
            0 <= j <= es@.len(),
            spec_lookup(bev, seg) == spec_lookup(bev.skip(j as int), seg),
        decreases es@.len() - j,
    {
        let key_bytes = es[j].0.as_bytes();
        proof {
            assert(bev.skip(j as int)[0] == bev[j as int]);
        }
        if crate::parser::bytes_eq(segment, key_bytes) {
            return Some(&es[j].1);
        }
        proof {
            assert(bev.skip(j as int).drop_first() =~= bev.skip(j + 1));
        }
        j = j + 1;
    }
    proof {
        assert(bev.skip(es@.len() as int) =~= Seq::<(Seq<u8>, SpecValue)>::empty());
    }
    None
}

/// Length and per-index shape of an owned entry sequence's abstraction.
pub proof fn lemma_owned_entries_view_props<H: FileHandle>(es: Seq<(String, Value<H>)>)
    ensures
        owned_entries_view(es).len() == es.len(),
        forall|i: int|
            0 <= i < es.len() ==> #[trigger] owned_entries_view(es)[i] == (encode_utf8(es[i].0@),
            value_view(es[i].1)),
    decreases es.len(),
{
    if es.len() > 0 {
        lemma_owned_entries_view_props(es.drop_first());
        assert forall|i: int| 0 <= i < es.len() implies #[trigger] owned_entries_view(es)[i] == (
        encode_utf8(es[i].0@),
        value_view(es[i].1),
        ) by {
            if i > 0 {
                assert(owned_entries_view(es)[i] == owned_entries_view(es.drop_first())[i - 1]);
                assert(es.drop_first()[i - 1] == es[i]);
            }
        }
    }
}

/// Length and per-index shape of an owned item sequence's abstraction.
pub proof fn lemma_owned_items_view_props<H: FileHandle>(vs: Seq<Value<H>>)
    ensures
        owned_items_view(vs).len() == vs.len(),
        forall|i: int|
            0 <= i < vs.len() ==> #[trigger] owned_items_view(vs)[i] == value_view(vs[i]),
    decreases vs.len(),
{
    if vs.len() > 0 {
        lemma_owned_items_view_props(vs.drop_first());
        assert forall|i: int| 0 <= i < vs.len() implies #[trigger] owned_items_view(vs)[i]
            == value_view(vs[i]) by {
            if i > 0 {
                assert(owned_items_view(vs)[i] == owned_items_view(vs.drop_first())[i - 1]);
                assert(vs.drop_first()[i - 1] == vs[i]);
            }
        }
    }
}

/// Length and per-index shape of a borrowed entry sequence's abstraction.
pub proof fn lemma_borrowed_entries_view_props(es: Seq<(&str, ValueView)>)
    ensures
        borrowed_entries_view(es).len() == es.len(),
        forall|i: int|
            0 <= i < es.len() ==> #[trigger] borrowed_entries_view(es)[i] == (es[i].0.spec_bytes(),
            borrowed_view(es[i].1)),
    decreases es.len(),
{
    if es.len() > 0 {
        lemma_borrowed_entries_view_props(es.drop_first());
        assert forall|i: int| 0 <= i < es.len() implies #[trigger] borrowed_entries_view(es)[i]
            == (es[i].0.spec_bytes(), borrowed_view(es[i].1)) by {
            if i > 0 {
                assert(borrowed_entries_view(es)[i] == borrowed_entries_view(es.drop_first())[i
                    - 1]);
                assert(es.drop_first()[i - 1] == es[i]);
            }
        }
    }
}

/// Length and per-index shape of a borrowed item sequence's abstraction.
pub proof fn lemma_borrowed_items_view_props(vs: Seq<ValueView>)
    ensures
        borrowed_items_view(vs).len() == vs.len(),
        forall|i: int|
            0 <= i < vs.len() ==> #[trigger] borrowed_items_view(vs)[i] == borrowed_view(vs[i]),
    decreases vs.len(),
{
    if vs.len() > 0 {
        lemma_borrowed_items_view_props(vs.drop_first());
        assert forall|i: int| 0 <= i < vs.len() implies #[trigger] borrowed_items_view(vs)[i]
            == borrowed_view(vs[i]) by {
            if i > 0 {
                assert(borrowed_items_view(vs)[i] == borrowed_items_view(vs.drop_first())[i - 1]);
                assert(vs.drop_first()[i - 1] == vs[i]);
            }
        }
    }
}

/// Every entry of a handle-free entry sequence is handle-free.
pub proof fn lemma_entries_handle_free_index<H: FileHandle>(es: Seq<(String, Value<H>)>, i: int)
    requires
        entries_handle_free(es),
        0 <= i < es.len(),
    ensures
        handle_free(es[i].1),
    decreases es.len(),
{
    if i > 0 {
        lemma_entries_handle_free_index(es.drop_first(), i - 1);
    }
}

/// Every item of a handle-free item sequence is handle-free.
pub proof fn lemma_items_handle_free_index<H: FileHandle>(vs: Seq<Value<H>>, i: int)
    requires
        items_handle_free(vs),
        0 <= i < vs.len(),
    ensures
        handle_free(vs[i]),
    decreases vs.len(),
{
    if i > 0 {
        lemma_items_handle_free_index(vs.drop_first(), i - 1);
    }
}

/// Appending one entry appends its abstraction.
pub proof fn lemma_borrowed_entries_view_push(es: Seq<(&str, ValueView)>, k: &str, v: ValueView)
    ensures
        borrowed_entries_view(es.push((k, v))) == borrowed_entries_view(es) + seq![
            (k.spec_bytes(), borrowed_view(v)),
        ],
    decreases es.len(),
{
    if es.len() == 0 {
        assert(es.push((k, v)).drop_first() =~= Seq::<(&str, ValueView)>::empty());
        assert(es =~= Seq::<(&str, ValueView)>::empty());
        assert(borrowed_entries_view(es.push((k, v))) =~= borrowed_entries_view(es) + seq![
            (k.spec_bytes(), borrowed_view(v)),
        ]);
    } else {
        assert(es.push((k, v)).drop_first() =~= es.drop_first().push((k, v)));
        lemma_borrowed_entries_view_push(es.drop_first(), k, v);
        assert(borrowed_entries_view(es.push((k, v))) =~= borrowed_entries_view(es) + seq![
            (k.spec_bytes(), borrowed_view(v)),
        ]);
    }
}

/// Appending one item appends its abstraction.
pub proof fn lemma_borrowed_items_view_push(vs: Seq<ValueView>, v: ValueView)
    ensures
        borrowed_items_view(vs.push(v)) == borrowed_items_view(vs) + seq![borrowed_view(v)],
    decreases vs.len(),
{
    if vs.len() == 0 {
        assert(vs.push(v).drop_first() =~= Seq::<ValueView>::empty());
        assert(vs =~= Seq::<ValueView>::empty());
        assert(borrowed_items_view(vs.push(v)) =~= borrowed_items_view(vs) + seq![
            borrowed_view(v),
        ]);
    } else {
        assert(vs.push(v).drop_first() =~= vs.drop_first().push(v));
        lemma_borrowed_items_view_push(vs.drop_first(), v);
        assert(borrowed_items_view(vs.push(v)) =~= borrowed_items_view(vs) + seq![
            borrowed_view(v),
        ]);
    }
}

/// Appending one owned entry appends its abstraction.
pub proof fn lemma_owned_entries_view_push<H: FileHandle>(
    es: Seq<(String, Value<H>)>,
    k: String,
    v: Value<H>,
)
    ensures
        owned_entries_view(es.push((k, v))) == owned_entries_view(es) + seq![
            (encode_utf8(k@), value_view(v)),
        ],
    decreases es.len(),
{
    if es.len() == 0 {
        assert(es.push((k, v)).drop_first() =~= Seq::<(String, Value<H>)>::empty());
        assert(es =~= Seq::<(String, Value<H>)>::empty());
        assert(owned_entries_view(es.push((k, v))) =~= owned_entries_view(es) + seq![
            (encode_utf8(k@), value_view(v)),
        ]);
    } else {
        assert(es.push((k, v)).drop_first() =~= es.drop_first().push((k, v)));
        lemma_owned_entries_view_push(es.drop_first(), k, v);
        assert(owned_entries_view(es.push((k, v))) =~= owned_entries_view(es) + seq![
            (encode_utf8(k@), value_view(v)),
        ]);
    }
}

/// Appending one owned item appends its abstraction.
pub proof fn lemma_owned_items_view_push<H: FileHandle>(vs: Seq<Value<H>>, v: Value<H>)
    ensures
        owned_items_view(vs.push(v)) == owned_items_view(vs) + seq![value_view(v)],
    decreases vs.len(),
{
    if vs.len() == 0 {
        assert(vs.push(v).drop_first() =~= Seq::<Value<H>>::empty());
        assert(vs =~= Seq::<Value<H>>::empty());
        assert(owned_items_view(vs.push(v)) =~= owned_items_view(vs) + seq![value_view(v)]);
    } else {
        assert(vs.push(v).drop_first() =~= vs.drop_first().push(v));
        lemma_owned_items_view_push(vs.drop_first(), v);
        assert(owned_items_view(vs.push(v)) =~= owned_items_view(vs) + seq![value_view(v)]);
    }
}

impl<'a> ValueView<'a> {
    /// Try to get as bool.
    pub fn as_bool(&self) -> (r: Option<bool>)
        ensures
            r == (if self@ is Bool {
                Some(self@->Bool_0)
            } else {
                None::<bool>
            }),
    {
        match self {
            ValueView::Bool(b) => Some(*b),
            _ => None,
        }
    }

    /// Try to get as a signed 64-bit integer.
    pub fn as_int(&self) -> (r: Option<i64>)
        ensures
            r == (if self@ is Int {
                Some(self@->Int_0)
            } else {
                None::<i64>
            }),
    {
        match self {
            ValueView::Int(i) => Some(*i),
            _ => None,
        }
    }

    /// Try to get as the IEEE 754 bit pattern of a 64-bit float.
    pub fn as_float_bits(&self) -> (r: Option<u64>)
        ensures
            r == (if self@ is Float {
                Some(self@->Float_0)
            } else {
                None::<u64>
            }),
    {
        match self {
            ValueView::Float(bits) => Some(*bits),
            _ => None,
        }
    }

    /// Try to get as a string slice borrowing from the buffer.
    pub fn as_str(&self) -> (r: Option<&'a str>)
        ensures
            match r {
                Some(s) => self@ is Str && s.spec_bytes() == self@->Str_0,
                None => !(self@ is Str),
            },
    {
        match self {
            ValueView::String(s) => Some(*s),
            _ => None,
        }
    }

    /// Convert to an owned value: a deep copy detached from the buffer the
    /// view borrows from. The owned value stands for the same abstract
    /// value.
    #[verifier::loop_isolation(false)]
    pub fn to_owned(&self) -> (v: Value)
        ensures
            v@ == self@,
        decreases borrowed_view(*self),
    {
        match self {
            ValueView::Bool(b) => Value::Bool(*b),
            ValueView::Int(i) => Value::Int(*i),
            ValueView::Float(bits) => Value::Float(*bits),
            ValueView::String(s) => Value::String((*s).to_owned()),
            ValueView::Array(a) => Value::Array(a.to_owned()),
            ValueView::File(f) => Value::File(f.to_owned()),
            ValueView::Object(es) => {
                let ghost bev = borrowed_entries_view(es@);
                proof {
                    lemma_borrowed_entries_view_props(es@);
                }
                let mut out: Vec<(String, Value)> = Vec::new();
                let mut i: usize = 0;
                while i < es.len()
                    invariant
                        0 <= i <= es@.len(),
                        owned_entries_view(out@) == borrowed_entries_view(es@.take(i as int)),
                    decreases es@.len() - i,
                {
                    let pair = &es[i];
                    proof {
                        let sv = borrowed_view(*self);
                        assert(sv == SpecValue::Object(bev));
                        assert(sv->Object_0 == bev);
                        assert(decreases_to!(sv => bev));
                        vstd::seq::axiom_seq_index_decreases(bev, i as int);
                        assert(bev[i as int] == (es@[i as int].0.spec_bytes(), borrowed_view(
                            es@[i as int].1,
                        )));
                        assert(decreases_to!(bev[i as int] => bev[i as int].1));
                        assert(decreases_to!(sv => borrowed_view(es@[i as int].1)));
                    }
                    let k = pair.0.to_owned();
                    let child = pair.1.to_owned();
                    proof {
                        lemma_owned_entries_view_push(out@, k, child);
                        lemma_borrowed_entries_view_push(
                            es@.take(i as int),
                            es@[i as int].0,
                            es@[i as int].1,
                        );
                        assert(es@.take(i + 1) =~= es@.take(i as int).push(es@[i as int]));
                    }
                    out.push((k, child));
                    i = i + 1;
                }
                proof {
                    assert(es@.take(es@.len() as int) =~= es@);
                }
                Value::Object(out)
            },
            ValueView::List(vs) => {
                let ghost biv = borrowed_items_view(vs@);
                proof {
                    lemma_borrowed_items_view_props(vs@);
                }
                let mut out: Vec<Value> = Vec::new();
                let mut i: usize = 0;
                while i < vs.len()
                    invariant
                        0 <= i <= vs@.len(),
                        owned_items_view(out@) == borrowed_items_view(vs@.take(i as int)),
                    decreases vs@.len() - i,
                {
                    proof {
                        let sv = borrowed_view(*self);
                        assert(sv == SpecValue::List(biv));
                        assert(sv->List_0 == biv);
                        assert(decreases_to!(sv => biv));
                        vstd::seq::axiom_seq_index_decreases(biv, i as int);
                        assert(biv[i as int] == borrowed_view(vs@[i as int]));
                        assert(decreases_to!(sv => borrowed_view(vs@[i as int])));
                    }
                    let child = vs[i].to_owned();
                    proof {
                        lemma_owned_items_view_push(out@, child);
                        lemma_borrowed_items_view_push(vs@.take(i as int), vs@[i as int]);
                        assert(vs@.take(i + 1) =~= vs@.take(i as int).push(vs@[i as int]));
                    }
                    out.push(child);
                    i = i + 1;
                }
                proof {
                    assert(vs@.take(vs@.len() as int) =~= vs@);
                }
                Value::List(out)
            },
        }
    }

    /// Try to get as an array view.
    pub fn as_array(&self) -> (r: Option<&ArrayView<'a>>)
        ensures
            match r {
                Some(a) => self@ == (SpecValue::Array {
                    dtype: a.dtype,
                    shape: a.shape@,
                    data: a.data@,
                }),
                None => !(self@ is Array),
            },
    {
        match self {
            ValueView::Array(a) => Some(a),
            _ => None,
        }
    }

    /// Try to get as a file view.
    pub fn as_file(&self) -> (r: Option<&FileView<'a>>)
        ensures
            match r {
                Some(f) => self@ == (SpecValue::File {
                    mime: f.mimetype.spec_bytes(),
                    data: f.data@,
                }),
                None => !(self@ is File),
            },
    {
        match self {
            ValueView::File(f) => Some(f),
            _ => None,
        }
    }

    /// Get a nested value by path.
    ///
    /// The path is split on the reserved separator `'.'` into segments; each
    /// segment must name an entry of an object (first match in encoded
    /// order wins). Returns `None` when a non-object is reached or a
    /// segment has no match.
    #[verifier::loop_isolation(false)]
    pub fn get(&self, path: &str) -> (r: Option<&ValueView<'a>>)
        ensures
            match r {
                Some(sub) => spec_get_from(self@, path.spec_bytes(), 0) == Some(sub@),
                None => spec_get_from(self@, path.spec_bytes(), 0) is None,
            },
    {
        let pb = path.as_bytes();
        let mut cur: &ValueView<'a> = self;
        let mut start: usize = 0;
        loop
            invariant
                0 <= start <= pb@.len(),
                (match spec_get_from(cur@, pb@, start as int) {
                    Some(sub) => spec_get_from(self@, pb@, 0) == Some(sub),
                    None => spec_get_from(self@, pb@, 0) is None,
                }),
            decreases pb@.len() - start,
        {
            let e = find_sep(pb, start);
            let es = match cur {
                ValueView::Object(es) => es,
                _ => {
                    return None;
                },
            };
            match lookup_entry(es, pb, start, e) {
                None => {
                    return None;
                },
                Some(child) => {
                    if e == pb.len() {
                        return Some(child);
                    }
                    cur = child;
                    start = e + 1;
                },
            }
        }
    }

    /// Try to get as an object's entries.
    pub fn as_object(&self) -> (r: Option<&Vec<(&'a str, ValueView<'a>)>>)
        ensures
            match r {
                Some(es) => self@ is Object && borrowed_entries_view(es@) == self@->Object_0,
                None => !(self@ is Object),
            },
    {
        match self {
            ValueView::Object(es) => Some(es),
            _ => None,
        }
    }

    /// Try to get as a list's items.
    pub fn as_list(&self) -> (r: Option<&Vec<ValueView<'a>>>)
        ensures
            match r {
                Some(vs) => self@ is List && borrowed_items_view(vs@) == self@->List_0,
                None => !(self@ is List),
            },
    {
        match self {
            ValueView::List(vs) => Some(vs),
            _ => None,
        }
    }
}

} // verus!
