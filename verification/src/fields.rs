//! The fields of commands and structures, checked against what each may hold.

use vstd::prelude::*;

use crate::bounded;
use crate::bounded::List;
use crate::im::Status;
use crate::tlv;
use crate::tlv::{ContainerKind, Element, Items, Value};

verus! {

/// The type of a field.
#[derive(Debug, Clone, Copy, PartialEq, Eq, Structural)]
pub enum Kind {
    /// An unsigned integer of 8 bits.
    U8,
    /// An unsigned integer of 16 bits.
    U16,
    /// An unsigned integer of 32 bits.
    U32,
    /// An unsigned integer of 64 bits.
    U64,
    /// An enumeration whose values are those from zero to the given one.
    Enum(u8),
    /// A signed integer of 8 bits.
    I8,
    /// A signed integer of 64 bits.
    I64,
    /// A boolean.
    Bool,
    /// A text.
    Text,
    /// An octet string.
    Octets,
    /// A structure.
    Structure,
    /// An array.
    Array,
}

/// Whether a field has to be there.
#[derive(Debug, Clone, Copy, PartialEq, Eq, Structural)]
pub enum Need {
    /// It has to be there.
    Required,
    /// It has to be there, and may be null.
    Nullable,
    /// It may be left out.
    Optional,
    /// It may be left out, and may be null.
    OptionalNullable,
}

/// A field: its tag, its type, and whether it has to be there.
#[derive(Debug, Clone, Copy, PartialEq, Eq, Structural)]
pub struct Field(pub u8, pub Kind, pub Need);

impl Field {
    /// Whether the field has to be there.
    pub open spec fn required(self) -> bool {
        self.2 is Required || self.2 is Nullable
    }

    /// Whether an element holds what the field may hold.
    pub open spec fn admits(self, e: Element) -> bool {
        ||| (e.value is Null && (self.2 is Nullable || self.2 is OptionalNullable))
        ||| match self.1 {
            Kind::U8 => e.value matches Value::Unsigned(v) && v <= 0xFF,
            Kind::U16 => e.value matches Value::Unsigned(v) && v <= 0xFFFF,
            Kind::U32 => e.value matches Value::Unsigned(v) && v <= 0xFFFF_FFFF,
            Kind::U64 => e.value is Unsigned,
            Kind::Enum(max) => e.value matches Value::Unsigned(v) && v <= max,
            Kind::I8 => e.value matches Value::Signed(v) && -0x80 <= v <= 0x7F,
            Kind::I64 => e.value is Signed,
            Kind::Bool => e.value is Bool,
            Kind::Text => e.value is Utf8,
            Kind::Octets => e.value is Octets,
            Kind::Structure => e.is_structure(),
            Kind::Array => e.is_array(),
        }
    }

    fn accepts(&self, e: &Element) -> (r: bool)
        ensures
            r == self.admits(*e),
    {
        let null: bool = match self.2 {
            Need::Nullable | Need::OptionalNullable => true,
            _ => false,
        };
        match e.value {
            Value::Null => null,
            Value::Unsigned(v) => match self.1 {
                Kind::U8 => v <= 0xFF,
                Kind::U16 => v <= 0xFFFF,
                Kind::U32 => v <= 0xFFFF_FFFF,
                Kind::U64 => true,
                Kind::Enum(max) => v <= max as u64,
                _ => false,
            },
            Value::Signed(v) => match self.1 {
                Kind::I8 => v >= -0x80 && v <= 0x7F,
                Kind::I64 => true,
                _ => false,
            },
            Value::Bool(_) => matches!(self.1, Kind::Bool),
            Value::Utf8(_, _) => matches!(self.1, Kind::Text),
            Value::Octets(_, _) => matches!(self.1, Kind::Octets),
            Value::Container(ContainerKind::Structure, _) => matches!(self.1, Kind::Structure),
            Value::Container(ContainerKind::Array, _) => matches!(self.1, Kind::Array),
            _ => false,
        }
    }
}

/// Elements with a context tag.
pub open spec fn tagged(tag: u8) -> spec_fn(Element) -> bool {
    |e: Element| e.context == Some(tag)
}

/// The first element with a tag.
pub open spec fn find(items: Seq<Element>, tag: u8) -> Option<Element> {
    match bounded::first(items, tagged(tag)) {
        Some(i) => Some(items[i]),
        None => None,
    }
}

/// The field of a schema that an element is for.
pub open spec fn field_of(schema: Seq<Field>, e: Element, i: int) -> Option<Field>
    decreases schema.len() - i,
{
    if i < 0 || i >= schema.len() {
        None
    } else if e.context == Some(schema[i].0) {
        Some(schema[i])
    } else {
        field_of(schema, e, i + 1)
    }
}

/// What is wrong with the element at a position: a field that came before is malformed, one that
/// does not hold what it may is out of its constraint, and one that no field is for is passed over.
pub open spec fn fault(items: Seq<Element>, schema: Seq<Field>, i: int) -> Option<Status> {
    match field_of(schema, items[i], 0) {
        None => None,
        Some(f) => if bounded::first(items, tagged(f.0)) != Some(i) {
            Some(Status::InvalidAction)
        } else if !f.admits(items[i]) {
            Some(Status::ConstraintError)
        } else {
            None
        },
    }
}

/// What is wrong with the first wrong element from a position on.
pub open spec fn first_fault(items: Seq<Element>, schema: Seq<Field>, i: int) -> Option<Status>
    decreases items.len() - i,
{
    if i < 0 || i >= items.len() {
        None
    } else {
        match fault(items, schema, i) {
            Some(status) => Some(status),
            None => first_fault(items, schema, i + 1),
        }
    }
}

/// Whether every field from a position on that has to be there is.
pub open spec fn all_there(items: Seq<Element>, schema: Seq<Field>, i: int) -> bool
    decreases schema.len() - i,
{
    if i < 0 || i >= schema.len() {
        true
    } else {
        (schema[i].required() ==> find(items, schema[i].0) is Some) && all_there(items, schema, i + 1)
    }
}

/// What the elements of a structure come to against a schema.
pub open spec fn check(items: Seq<Element>, complete: bool, schema: Seq<Field>) -> Option<Status> {
    match first_fault(items, schema, 0) {
        Some(status) => Some(status),
        None => if !complete {
            Some(Status::InvalidAction)
        } else if !all_there(items, schema, 0) {
            Some(Status::InvalidCommand)
        } else {
            None
        },
    }
}

/// What the structure whose content starts at `pos` comes to against a schema.
pub open spec fn decode_at(b: Seq<u8>, pos: int, schema: Seq<Field>) -> Result<Seq<Element>, Status> {
    let s = tlv::scan(b, pos);
    match check(s.items, s.complete, schema) {
        Some(status) => Err(status),
        None => Ok(s.items),
    }
}

/// What the fields of a command come to against a schema.
pub open spec fn decode(b: Seq<u8>, schema: Seq<Field>) -> Result<Seq<Element>, Status> {
    match tlv::element_at(b, 0) {
        None => Err(Status::InvalidAction),
        Some((e, _)) => if e.is_structure() {
            decode_at(b, e.content(), schema)
        } else {
            Err(Status::ConstraintError)
        },
    }
}

/// The number that a field holds.
pub open spec fn num(items: Seq<Element>, tag: u8) -> Option<u64> {
    match find(items, tag) {
        Some(e) => match e.value {
            Value::Unsigned(v) => Some(v),
            _ => None,
        },
        None => None,
    }
}

/// The number that a field holds, in 8 bits.
pub open spec fn num8(items: Seq<Element>, tag: u8) -> Option<u8> {
    match num(items, tag) {
        Some(v) => if v <= 0xFF { Some(v as u8) } else { None },
        None => None,
    }
}

/// The number that a field holds, in 16 bits.
pub open spec fn num16(items: Seq<Element>, tag: u8) -> Option<u16> {
    match num(items, tag) {
        Some(v) => if v <= 0xFFFF { Some(v as u16) } else { None },
        None => None,
    }
}

/// The number that a field holds, in 32 bits.
pub open spec fn num32(items: Seq<Element>, tag: u8) -> Option<u32> {
    match num(items, tag) {
        Some(v) => if v <= 0xFFFF_FFFF { Some(v as u32) } else { None },
        None => None,
    }
}

/// The signed number that a field holds.
pub open spec fn int64(items: Seq<Element>, tag: u8) -> Option<i64> {
    match find(items, tag) {
        Some(e) => match e.value {
            Value::Signed(v) => Some(v),
            _ => None,
        },
        None => None,
    }
}

/// The signed integer of 8 bits that a field holds.
pub open spec fn int8(items: Seq<Element>, tag: u8) -> Option<i8> {
    match int64(items, tag) {
        Some(v) => if -0x80 <= v <= 0x7F { Some(v as i8) } else { None },
        None => None,
    }
}

/// The boolean that a field holds.
pub open spec fn flag(items: Seq<Element>, tag: u8) -> Option<bool> {
    match find(items, tag) {
        Some(e) => match e.value {
            Value::Bool(v) => Some(v),
            _ => None,
        },
        None => None,
    }
}

/// The text that a field holds.
pub open spec fn text(b: Seq<u8>, items: Seq<Element>, tag: u8) -> Option<Seq<char>> {
    match find(items, tag) {
        Some(e) => if e.value is Utf8 { Some(tlv::text_in(b, e)) } else { None },
        None => None,
    }
}

/// How many octets the text takes that a field holds.
pub open spec fn text_length(items: Seq<Element>, tag: u8) -> Option<int> {
    match find(items, tag) {
        Some(e) => match e.value {
            Value::Utf8(start, end) => Some(end - start),
            _ => None,
        },
        None => None,
    }
}

/// The octets that a field holds.
pub open spec fn octets(b: Seq<u8>, items: Seq<Element>, tag: u8) -> Option<Seq<u8>> {
    match find(items, tag) {
        Some(e) => if e.value is Octets { Some(tlv::octets_in(b, e)) } else { None },
        None => None,
    }
}

/// Where the content of the container starts that a field holds.
pub open spec fn container(items: Seq<Element>, tag: u8) -> Option<usize> {
    match find(items, tag) {
        Some(e) => match e.value {
            Value::Container(_, start) => Some(start),
            _ => None,
        },
        None => None,
    }
}

/// The fields of a command, read out of its data.
pub struct Fields<'a> {
    /// The data.
    pub data: &'a [u8],
    /// The elements, in order.
    pub items: Vec<Element>,
}

fn position(items: &Vec<Element>, tag: u8) -> (at: Option<usize>)
    ensures
        match at {
            Some(i) => bounded::first(items@, tagged(tag)) == Some(i as int) && i < items@.len(),
            None => bounded::first(items@, tagged(tag)) is None,
        },
{
    let mut i: usize = 0;
    while i < items.len()
        invariant
            i <= items@.len(),
            bounded::first(items@, tagged(tag)) == bounded::first_from(items@, tagged(tag), i as int),
        decreases items.len() - i,
    {
        if let Some(t) = items[i].context {
            if t == tag {
                return Some(i);
            }
        }
        i = i + 1;
    }
    None
}

impl<'a> Fields<'a> {
    /// Whether every position that the elements give lies inside the data.
    pub open spec fn wf(&self) -> bool {
        forall|i: int| 0 <= i < self.items@.len() ==> tlv::inside(self.data@, #[trigger] self.items@[i])
    }

    /// The first element with a tag.
    pub fn find(&self, tag: u8) -> (e: Option<Element>)
        requires
            self.wf(),
        ensures
            e == find(self.items@, tag),
            e matches Some(e) ==> tlv::inside(self.data@, e),
    {
        match position(&self.items, tag) {
            Some(i) => Some(self.items[i]),
            None => None,
        }
    }

    /// The number that a field holds.
    pub fn num(&self, tag: u8) -> (v: Option<u64>)
        requires
            self.wf(),
        ensures
            v == num(self.items@, tag),
    {
        match self.find(tag) {
            Some(e) => match e.value {
                Value::Unsigned(v) => Some(v),
                _ => None,
            },
            None => None,
        }
    }

    /// The number that a field holds, in 8 bits.
    pub fn num8(&self, tag: u8) -> (v: Option<u8>)
        requires
            self.wf(),
        ensures
            v == num8(self.items@, tag),
    {
        match self.num(tag) {
            Some(v) => if v <= 0xFF { Some(v as u8) } else { None },
            None => None,
        }
    }

    /// The number that a field holds, in 16 bits.
    pub fn num16(&self, tag: u8) -> (v: Option<u16>)
        requires
            self.wf(),
        ensures
            v == num16(self.items@, tag),
    {
        match self.num(tag) {
            Some(v) => if v <= 0xFFFF { Some(v as u16) } else { None },
            None => None,
        }
    }

    /// The number that a field holds, in 32 bits.
    pub fn num32(&self, tag: u8) -> (v: Option<u32>)
        requires
            self.wf(),
        ensures
            v == num32(self.items@, tag),
    {
        match self.num(tag) {
            Some(v) => if v <= 0xFFFF_FFFF { Some(v as u32) } else { None },
            None => None,
        }
    }

    /// The signed number that a field holds.
    pub fn int64(&self, tag: u8) -> (v: Option<i64>)
        requires
            self.wf(),
        ensures
            v == int64(self.items@, tag),
    {
        match self.find(tag) {
            Some(e) => match e.value {
                Value::Signed(v) => Some(v),
                _ => None,
            },
            None => None,
        }
    }

    /// The signed integer of 8 bits that a field holds.
    pub fn int8(&self, tag: u8) -> (v: Option<i8>)
        requires
            self.wf(),
        ensures
            v == int8(self.items@, tag),
    {
        match self.int64(tag) {
            Some(v) => if v >= -0x80 && v <= 0x7F {
                Some(v as i8)
            } else {
                None
            },
            None => None,
        }
    }

    /// The boolean that a field holds.
    pub fn flag(&self, tag: u8) -> (v: Option<bool>)
        requires
            self.wf(),
        ensures
            v == flag(self.items@, tag),
    {
        match self.find(tag) {
            Some(e) => match e.value {
                Value::Bool(v) => Some(v),
                _ => None,
            },
            None => None,
        }
    }

    /// The text that a field holds.
    pub fn text(&self, tag: u8) -> (s: Option<&'a str>)
        requires
            self.wf(),
        ensures
            (s is Some) == (text(self.data@, self.items@, tag) is Some),
            s matches Some(s) ==> text(self.data@, self.items@, tag) == Some(s@),
    {
        match self.find(tag) {
            Some(e) => tlv::text_at(self.data, &e),
            None => None,
        }
    }

    /// How many octets the text takes that a field holds.
    pub fn text_length(&self, tag: u8) -> (n: Option<usize>)
        requires
            self.wf(),
        ensures
            (n is Some) == (text_length(self.items@, tag) is Some),
            n matches Some(n) ==> text_length(self.items@, tag) == Some(n as int),
    {
        match self.find(tag) {
            Some(e) => match e.value {
                Value::Utf8(start, end) => Some(end - start),
                _ => None,
            },
            None => None,
        }
    }

    /// The octets that a field holds.
    pub fn octets(&self, tag: u8) -> (s: Option<&'a [u8]>)
        requires
            self.wf(),
        ensures
            (s is Some) == (octets(self.data@, self.items@, tag) is Some),
            s matches Some(s) ==> octets(self.data@, self.items@, tag) == Some(s@),
    {
        match self.find(tag) {
            Some(e) => tlv::octets_at(self.data, &e),
            None => None,
        }
    }

    /// Where the content of the container starts that a field holds.
    pub fn container(&self, tag: u8) -> (start: Option<usize>)
        requires
            self.wf(),
        ensures
            start == container(self.items@, tag),
            start matches Some(p) ==> p <= self.data@.len(),
    {
        match self.find(tag) {
            Some(e) => match e.value {
                Value::Container(_, start) => Some(start),
                _ => None,
            },
            None => None,
        }
    }
}

fn schema_position(schema: &Vec<Field>, e: &Element) -> (at: Option<usize>)
    ensures
        match at {
            Some(i) => i < schema@.len() && field_of(schema@, *e, 0) == Some(schema@[i as int]),
            None => field_of(schema@, *e, 0) is None,
        },
{
    let mut i: usize = 0;
    while i < schema.len()
        invariant
            i <= schema@.len(),
            field_of(schema@, *e, 0) == field_of(schema@, *e, i as int),
        decreases schema.len() - i,
    {
        if let Some(t) = e.context {
            if t == schema[i].0 {
                return Some(i);
            }
        }
        i = i + 1;
    }
    None
}

fn check_items(items: &Vec<Element>, complete: bool, schema: &Vec<Field>) -> (r: Option<Status>)
    ensures
        r == check(items@, complete, schema@),
{
    let mut i: usize = 0;
    while i < items.len()
        invariant
            i <= items@.len(),
            first_fault(items@, schema@, 0) == first_fault(items@, schema@, i as int),
        decreases items.len() - i,
    {
        if let Some(k) = schema_position(schema, &items[i]) {
            let first: bool = match position(items, schema[k].0) {
                Some(p) => p == i,
                None => false,
            };
            if !first {
                return Some(Status::InvalidAction);
            }
            if !schema[k].accepts(&items[i]) {
                return Some(Status::ConstraintError);
            }
        }
        i = i + 1;
    }
    if !complete {
        return Some(Status::InvalidAction);
    }
    let mut k: usize = 0;
    while k < schema.len()
        invariant
            k <= schema@.len(),
            complete,
            first_fault(items@, schema@, 0) is None,
            all_there(items@, schema@, 0) == all_there(items@, schema@, k as int),
        decreases schema.len() - k,
    {
        let required: bool = match schema[k].2 {
            Need::Required | Need::Nullable => true,
            _ => false,
        };
        if required && position(items, schema[k].0).is_none() {
            return Some(Status::InvalidCommand);
        }
        k = k + 1;
    }
    None
}

/// Reads a structure whose content starts at `start` against a schema.
pub fn read_at<'a>(data: &'a [u8], start: usize, schema: &Vec<Field>) -> (r: Result<Fields<'a>, Status>)
    requires
        start <= data@.len(),
    ensures
        match r {
            Ok(f) => decode_at(data@, start as int, schema@) == Ok::<Seq<Element>, Status>(f.items@) && f.data == data && f.wf(),
            Err(status) => decode_at(data@, start as int, schema@) == Err::<Seq<Element>, Status>(status),
        },
{
    let read: Items = tlv::read_items(data, start);
    match check_items(&read.items, read.complete, schema) {
        Some(status) => Err(status),
        None => Ok(Fields { data, items: read.items }),
    }
}

/// Reads the fields of a command against a schema.
pub fn read<'a>(data: &'a [u8], schema: &Vec<Field>) -> (r: Result<Fields<'a>, Status>)
    ensures
        match r {
            Ok(f) => decode(data@, schema@) == Ok::<Seq<Element>, Status>(f.items@) && f.data == data && f.wf(),
            Err(status) => decode(data@, schema@) == Err::<Seq<Element>, Status>(status),
        },
{
    match tlv::read_element(data, 0) {
        None => Err(Status::InvalidAction),
        Some((e, _)) => match e.value {
            Value::Container(ContainerKind::Structure, start) => read_at(data, start, schema),
            _ => Err(Status::ConstraintError),
        },
    }
}

/// A command's fields against a schema, where it has to have fields.
pub open spec fn decode_some(fields: Option<Seq<u8>>, schema: Seq<Field>) -> Result<Seq<Element>, Status> {
    match fields {
        None => Err(Status::InvalidCommand),
        Some(b) => decode(b, schema),
    }
}

/// Reads the fields of a command that has to have fields.
pub fn read_some<'a>(fields: Option<&'a [u8]>, schema: &Vec<Field>) -> (r: Result<Fields<'a>, Status>)
    ensures
        match r {
            Ok(f) => decode_some(crate::im::octets(fields), schema@) == Ok::<Seq<Element>, Status>(f.items@)
                && fields == Some(f.data) && f.wf(),
            Err(status) => decode_some(crate::im::octets(fields), schema@) == Err::<Seq<Element>, Status>(status),
        },
{
    match fields {
        None => Err(Status::InvalidCommand),
        Some(data) => read(data, schema),
    }
}

/// A value that an element can hold.
pub trait FromTlv: Sized {
    /// The value that an element holds, or what is wrong with it.
    spec fn of(b: Seq<u8>, e: Element) -> Result<Self, Status>;

    /// Reads the value that an element holds.
    fn from_tlv(data: &[u8], e: &Element) -> (r: Result<Self, Status>)
        requires
            tlv::inside(data@, *e),
        ensures
            r == Self::of(data@, *e),
    ;
}

/// What the first `n` items of a list come to, where at most `cap` may be there: their values in
/// order, or what is wrong with the first wrong one. One too many is answered with `full`.
pub open spec fn gathered<T: FromTlv>(b: Seq<u8>, items: Seq<Element>, n: int, cap: int, full: Status) -> Result<
    Seq<T>,
    Status,
>
    decreases n,
{
    if n <= 0 {
        Ok(Seq::empty())
    } else {
        match gathered::<T>(b, items, n - 1, cap, full) {
            Err(status) => Err(status),
            Ok(s) => match T::of(b, items[n - 1]) {
                Err(status) => Err(status),
                Ok(x) => if n > cap {
                    Err(full)
                } else {
                    Ok(s.push(x))
                },
            },
        }
    }
}

/// What went wrong early stays wrong.
pub proof fn lemma_gathered_err<T: FromTlv>(b: Seq<u8>, items: Seq<Element>, i: int, n: int, cap: int, full: Status)
    requires
        i <= n,
        gathered::<T>(b, items, i, cap, full) is Err,
    ensures
        gathered::<T>(b, items, n, cap, full) == gathered::<T>(b, items, i, cap, full),
    decreases n - i,
{
    if i < n {
        lemma_gathered_err::<T>(b, items, i, n - 1, cap, full);
    }
}

/// As many values as items, where all went well.
pub proof fn lemma_gathered_len<T: FromTlv>(b: Seq<u8>, items: Seq<Element>, n: int, cap: int, full: Status)
    requires
        0 <= n,
    ensures
        gathered::<T>(b, items, n, cap, full) matches Ok(s) ==> s.len() == n && (n > 0 ==> n <= cap),
    decreases n,
{
    if n > 0 {
        lemma_gathered_len::<T>(b, items, n - 1, cap, full);
    }
}

/// What a list comes to: its values in order, or what is wrong with the first wrong item; a list
/// whose end is missing is malformed.
pub open spec fn list_of<T: FromTlv>(b: Seq<u8>, pos: int, cap: int, full: Status) -> Result<Seq<T>, Status> {
    let s = tlv::scan(b, pos);
    match gathered::<T>(b, s.items, s.items.len() as int, cap, full) {
        Err(status) => Err(status),
        Ok(values) => if s.complete {
            Ok(values)
        } else {
            Err(Status::InvalidAction)
        },
    }
}

/// A list that is read has no more values than there is room for.
pub proof fn law_a_list_keeps_to_its_room<T: FromTlv>(b: Seq<u8>, pos: int, cap: int, full: Status)
    requires
        cap >= 0,
    ensures
        list_of::<T>(b, pos, cap, full) matches Ok(values) ==> values.len() <= cap,
{
    let items = tlv::scan(b, pos).items;
    lemma_gathered_fits::<T>(b, items, items.len() as int, cap, full);
}

proof fn lemma_gathered_fits<T: FromTlv>(b: Seq<u8>, items: Seq<Element>, n: int, cap: int, full: Status)
    requires
        cap >= 0,
        n >= 0,
    ensures
        gathered::<T>(b, items, n, cap, full) matches Ok(values) ==> values.len() == n && n <= cap,
    decreases n,
{
    if n > 0 {
        lemma_gathered_fits::<T>(b, items, n - 1, cap, full);
    }
}

/// A list's values, as a sequence.
pub open spec fn values<T>(r: Result<Vec<T>, Status>) -> Result<Seq<T>, Status> {
    match r {
        Ok(v) => Ok(v@),
        Err(status) => Err(status),
    }
}

/// Reads a list whose content starts at `start`.
pub fn read_list<T: FromTlv>(data: &[u8], start: usize, cap: usize, full: Status) -> (r: Result<Vec<T>, Status>)
    requires
        start <= data@.len(),
    ensures
        values(r) == list_of::<T>(data@, start as int, cap as int, full),
{
    let read: Items = tlv::read_items(data, start);
    let mut out: Vec<T> = Vec::new();
    let mut i: usize = 0;
    let ghost items = read.items@;
    while i < read.items.len()
        invariant
            i <= read.items@.len(),
            items == read.items@,
            items == tlv::scan(data@, start as int).items,
            read.complete == tlv::scan(data@, start as int).complete,
            forall|i: int| 0 <= i < read.items@.len() ==> tlv::inside(data@, #[trigger] read.items@[i]),
            gathered::<T>(data@, items, i as int, cap as int, full) == Ok::<Seq<T>, Status>(out@),
        decreases read.items.len() - i,
    {
        match T::from_tlv(data, &read.items[i]) {
            Err(status) => {
                proof {
                    lemma_gathered_err::<T>(data@, items, i + 1, items.len() as int, cap as int, full);
                }
                return Err(status);
            },
            Ok(x) => {
                if i >= cap {
                    proof {
                        lemma_gathered_err::<T>(data@, items, i + 1, items.len() as int, cap as int, full);
                    }
                    return Err(full);
                }
                out.push(x);
            },
        }
        i = i + 1;
    }
    if read.complete {
        Ok(out)
    } else {
        Err(Status::InvalidAction)
    }
}

/// What a list of at most `cap` values comes to that goes on with the first `n` items.
pub open spec fn extended<T: FromTlv>(b: Seq<u8>, items: Seq<Element>, n: int, have: Seq<T>, cap: nat, full: Status) -> Result<
    Seq<T>,
    Status,
>
    decreases n,
{
    if n <= 0 {
        Ok(have)
    } else {
        match extended(b, items, n - 1, have, cap, full) {
            Err(status) => Err(status),
            Ok(s) => match T::of(b, items[n - 1]) {
                Err(status) => Err(status),
                Ok(x) => if s.len() >= cap {
                    Err(full)
                } else {
                    Ok(s.push(x))
                },
            },
        }
    }
}

/// What went wrong early stays wrong.
pub proof fn lemma_extended_err<T: FromTlv>(b: Seq<u8>, items: Seq<Element>, i: int, n: int, have: Seq<T>, cap: nat, full: Status)
    requires
        i <= n,
        extended(b, items, i, have, cap, full) is Err,
    ensures
        extended(b, items, n, have, cap, full) == extended(b, items, i, have, cap, full),
    decreases n - i,
{
    if i < n {
        lemma_extended_err(b, items, i, n - 1, have, cap, full);
    }
}

/// What a list comes to that goes on with the one whose content starts at `pos`.
pub open spec fn list_onto<T: FromTlv>(b: Seq<u8>, pos: int, have: Seq<T>, cap: nat, full: Status) -> Result<Seq<T>, Status> {
    let s = tlv::scan(b, pos);
    match extended(b, s.items, s.items.len() as int, have, cap, full) {
        Err(status) => Err(status),
        Ok(values) => if s.complete {
            Ok(values)
        } else {
            Err(Status::InvalidAction)
        },
    }
}

/// Reads a list whose content starts at `start` onto the end of another.
pub fn read_onto<T: FromTlv, const N: usize>(data: &[u8], start: usize, list: &mut List<T, N>, full: Status) -> (r: Result<
    (),
    Status,
>)
    requires
        start <= data@.len(),
    ensures
        match r {
            Ok(_) => list_onto(data@, start as int, old(list)@, N as nat, full) == Ok::<Seq<T>, Status>(final(list)@),
            Err(status) => list_onto(data@, start as int, old(list)@, N as nat, full) == Err::<Seq<T>, Status>(status),
        },
{
    let read: Items = tlv::read_items(data, start);
    let mut i: usize = 0;
    let ghost items = read.items@;
    let ghost have = list@;
    while i < read.items.len()
        invariant
            i <= read.items@.len(),
            items == read.items@,
            have == old(list)@,
            items == tlv::scan(data@, start as int).items,
            forall|i: int| 0 <= i < read.items@.len() ==> tlv::inside(data@, #[trigger] read.items@[i]),
            extended(data@, items, i as int, have, N as nat, full) == Ok::<Seq<T>, Status>(list@),
        decreases read.items.len() - i,
    {
        match T::from_tlv(data, &read.items[i]) {
            Err(status) => {
                proof {
                    lemma_extended_err(data@, items, i + 1, items.len() as int, have, N as nat, full);
                }
                return Err(status);
            },
            Ok(x) => {
                if !list.push(x) {
                    proof {
                        lemma_extended_err(data@, items, i + 1, items.len() as int, have, N as nat, full);
                    }
                    return Err(full);
                }
            },
        }
        i = i + 1;
    }
    if read.complete {
        Ok(())
    } else {
        Err(Status::InvalidAction)
    }
}

impl FromTlv for u16 {
    open spec fn of(b: Seq<u8>, e: Element) -> Result<u16, Status> {
        match e.value {
            Value::Unsigned(v) => if v <= 0xFFFF { Ok(v as u16) } else { Err(Status::ConstraintError) },
            _ => Err(Status::ConstraintError),
        }
    }

    fn from_tlv(data: &[u8], e: &Element) -> (r: Result<u16, Status>) {
        match e.value {
            Value::Unsigned(v) => if v <= 0xFFFF { Ok(v as u16) } else { Err(Status::ConstraintError) },
            _ => Err(Status::ConstraintError),
        }
    }
}

/// Values that were written one after the other are the same list where they are read.
pub proof fn lemma_list_back<T: FromTlv>(b: Seq<u8>, at: int, values: Seq<T>, f: spec_fn(T) -> Seq<u8>, cap: nat, full: Status)
    requires
        tlv::stands(b, at, tlv::concat(values, f)),
        tlv::scan(b, at).items == tlv::concat_elements(b, at, values, f),
        tlv::scan(b, at).complete,
        values.len() <= cap,
        forall|i: int, p: int|
            0 <= i < values.len() && #[trigger] tlv::stands(b, p, f(values[i])) ==> (tlv::element_at(b, p) matches Some((e, _))
                && T::of(b, e) == Ok::<T, Status>(values[i])),
    ensures
        list_onto(b, at, Seq::<T>::empty(), cap, full) == Ok::<Seq<T>, Status>(values),
{
    let items = tlv::scan(b, at).items;
    tlv::lemma_concat_elements_len(b, at, values, f);
    lemma_values_back(b, at, values, f, items, values.len() as int, cap, full);
    assert(values.take(values.len() as int) =~= values);
}

proof fn lemma_values_back<T: FromTlv>(
    b: Seq<u8>,
    at: int,
    values: Seq<T>,
    f: spec_fn(T) -> Seq<u8>,
    items: Seq<Element>,
    n: int,
    cap: nat,
    full: Status,
)
    requires
        tlv::stands(b, at, tlv::concat(values, f)),
        items == tlv::concat_elements(b, at, values, f),
        items.len() == values.len() <= cap,
        0 <= n <= values.len(),
        forall|i: int, p: int|
            0 <= i < values.len() && #[trigger] tlv::stands(b, p, f(values[i])) ==> (tlv::element_at(b, p) matches Some((e, _))
                && T::of(b, e) == Ok::<T, Status>(values[i])),
    ensures
        extended(b, items, n, Seq::<T>::empty(), cap, full) == Ok::<Seq<T>, Status>(values.take(n)),
    decreases n,
{
    if n > 0 {
        lemma_values_back(b, at, values, f, items, n - 1, cap, full);
        tlv::lemma_concat_element(b, at, values, f, n - 1);
        assert(values.take(n) =~= values.take(n - 1).push(values[n - 1]));
    } else {
        assert(values.take(0) =~= Seq::<T>::empty());
    }
}

/// Values that were written one after the other are the same list where they are read whole.
pub proof fn lemma_list_of_back<T: FromTlv>(b: Seq<u8>, at: int, values: Seq<T>, f: spec_fn(T) -> Seq<u8>, cap: nat, full: Status)
    requires
        tlv::stands(b, at, tlv::concat(values, f)),
        tlv::scan(b, at).items == tlv::concat_elements(b, at, values, f),
        tlv::scan(b, at).complete,
        values.len() <= cap,
        forall|i: int, p: int|
            0 <= i < values.len() && #[trigger] tlv::stands(b, p, f(values[i])) ==> (tlv::element_at(b, p) matches Some((e, _))
                && T::of(b, e) == Ok::<T, Status>(values[i])),
    ensures
        list_of::<T>(b, at, cap as int, full) == Ok::<Seq<T>, Status>(values),
{
    let items = tlv::scan(b, at).items;
    tlv::lemma_concat_elements_len(b, at, values, f);
    lemma_gathered_back(b, at, values, f, items, values.len() as int, cap, full);
    assert(values.take(values.len() as int) =~= values);
}

proof fn lemma_gathered_back<T: FromTlv>(
    b: Seq<u8>,
    at: int,
    values: Seq<T>,
    f: spec_fn(T) -> Seq<u8>,
    items: Seq<Element>,
    n: int,
    cap: nat,
    full: Status,
)
    requires
        tlv::stands(b, at, tlv::concat(values, f)),
        items == tlv::concat_elements(b, at, values, f),
        items.len() == values.len() <= cap,
        0 <= n <= values.len(),
        forall|i: int, p: int|
            0 <= i < values.len() && #[trigger] tlv::stands(b, p, f(values[i])) ==> (tlv::element_at(b, p) matches Some((e, _))
                && T::of(b, e) == Ok::<T, Status>(values[i])),
    ensures
        gathered::<T>(b, items, n, cap as int, full) == Ok::<Seq<T>, Status>(values.take(n)),
    decreases n,
{
    if n > 0 {
        lemma_gathered_back(b, at, values, f, items, n - 1, cap, full);
        tlv::lemma_concat_element(b, at, values, f, n - 1);
        assert(values.take(n) =~= values.take(n - 1).push(values[n - 1]));
    } else {
        assert(values.take(0) =~= Seq::<T>::empty());
    }
}

proof fn lemma_field_of(schema: Seq<Field>, e: Element, i: int)
    requires
        0 <= i,
        forall|a: int, c: int| 0 <= a < c < schema.len() ==> (#[trigger] schema[a]).0 != (#[trigger] schema[c]).0,
    ensures
        forall|k: int| i <= k < schema.len() && e.context == Some((#[trigger] schema[k]).0) ==> field_of(schema, e, i) == Some(schema[k]),
        (forall|k: int| i <= k < schema.len() ==> e.context != Some((#[trigger] schema[k]).0)) ==> field_of(schema, e, i) is None,
    decreases schema.len() - i,
{
    if i < schema.len() {
        lemma_field_of(schema, e, i + 1);
    }
}

proof fn lemma_first_fault(items: Seq<Element>, schema: Seq<Field>, i: int)
    requires
        0 <= i,
    ensures
        (first_fault(items, schema, i) is None) == forall|k: int| i <= k < items.len() ==> (#[trigger] fault(items, schema, k)) is None,
    decreases items.len() - i,
{
    if i < items.len() {
        lemma_first_fault(items, schema, i + 1);
    }
}

proof fn lemma_all_there(items: Seq<Element>, schema: Seq<Field>, i: int)
    requires
        0 <= i,
    ensures
        all_there(items, schema, i) == forall|k: int|
            i <= k < schema.len() && (#[trigger] schema[k]).required() ==> find(items, schema[k].0) is Some,
    decreases schema.len() - i,
{
    if i < schema.len() {
        lemma_all_there(items, schema, i + 1);
    }
}

/// Whether an element is one that a field may hold: of its type and within its range, or null where that is allowed.
pub open spec fn suits(f: Field, e: Element) -> bool {
    if e.value is Null {
        f.2 is Nullable || f.2 is OptionalNullable
    } else {
        match (f.1, e.value) {
            (Kind::U8, Value::Unsigned(v)) => v < 0x100,
            (Kind::U16, Value::Unsigned(v)) => v < 0x1_0000,
            (Kind::U32, Value::Unsigned(v)) => v < 0x1_0000_0000,
            (Kind::U64, Value::Unsigned(_)) => true,
            (Kind::Enum(max), Value::Unsigned(v)) => v <= max,
            (Kind::I8, Value::Signed(v)) => -128 <= v < 128,
            (Kind::I64, Value::Signed(_)) => true,
            (Kind::Bool, Value::Bool(_)) => true,
            (Kind::Text, Value::Utf8(_, _)) => true,
            (Kind::Octets, Value::Octets(_, _)) => true,
            (Kind::Structure, Value::Container(ContainerKind::Structure, _)) => true,
            (Kind::Array, Value::Container(ContainerKind::Array, _)) => true,
            _ => false,
        }
    }
}

/// The fields of a command are read exactly where they are a structure that is all there, in which every field that has to be
/// there is, none comes twice, and each is of its type and within its range; what no field is for is passed over.
pub proof fn law_fields_are_read_where_they_fit(b: Seq<u8>, schema: Seq<Field>)
    requires
        forall|a: int, c: int| 0 <= a < c < schema.len() ==> (#[trigger] schema[a]).0 != (#[trigger] schema[c]).0,
    ensures
        (decode(b, schema) is Ok) == (tlv::element_at(b, 0) matches Some((e, _)) && e.is_structure() && {
            let s = tlv::scan(b, e.content());
            &&& s.complete
            &&& forall|k: int|
                0 <= k < schema.len() && ((#[trigger] schema[k]).2 is Required || schema[k].2 is Nullable) ==> exists|i: int|
                    0 <= i < s.items.len() && (#[trigger] s.items[i]).context == Some(schema[k].0)
            &&& forall|k: int, i: int|
                0 <= k < schema.len() && 0 <= i < s.items.len() && (#[trigger] s.items[i]).context == Some((#[trigger] schema[k]).0)
                    ==> suits(schema[k], s.items[i])
            &&& forall|k: int, i: int, j: int|
                0 <= k < schema.len() && 0 <= i < j < s.items.len() && (#[trigger] s.items[i]).context == Some((#[trigger] schema[k]).0)
                    ==> (#[trigger] s.items[j]).context != Some(schema[k].0)
        }),
        decode(b, schema) matches Ok(items) ==> (tlv::element_at(b, 0) matches Some((e, _)) && items == tlv::scan(b, e.content()).items),
{
    if let Some((e, _)) = tlv::element_at(b, 0) {
        let s = tlv::scan(b, e.content());
        let items = s.items;
        lemma_first_fault(items, schema, 0);
        lemma_all_there(items, schema, 0);
        assert forall|k: int| 0 <= k < schema.len() implies (find(items, (#[trigger] schema[k]).0) is Some) == exists|i: int|
            0 <= i < items.len() && (#[trigger] items[i]).context == Some(schema[k].0) by {
            let p = tagged(schema[k].0);
            bounded::lemma_first(items, p);
            match bounded::first(items, p) {
                Some(i) => {
                    assert(p(items[i]));
                    assert(items[i].context == Some(schema[k].0));
                },
                None => {
                    assert forall|i: int| 0 <= i < items.len() implies (#[trigger] items[i]).context != Some(schema[k].0) by {
                        assert(!p(items[i]));
                    }
                },
            }
        }
        assert forall|k: int, i: int|
            0 <= k < schema.len() && 0 <= i < items.len() && (#[trigger] items[i]).context == Some((#[trigger] schema[k]).0) implies (
        fault(items, schema, i) is None) == (suits(schema[k], items[i]) && forall|j: int|
            0 <= j < i ==> (#[trigger] items[j]).context != Some(schema[k].0)) by {
            lemma_field_of(schema, items[i], 0);
            let p = tagged(schema[k].0);
            bounded::lemma_first(items, p);
            assert(p(items[i]));
            let at = bounded::first(items, p)->Some_0;
            assert(p(items[at]));
            assert(schema[k].admits(items[i]) == suits(schema[k], items[i]));
            if at < i {
                assert(items[at].context == Some(schema[k].0));
            } else {
                assert forall|j: int| 0 <= j < i implies (#[trigger] items[j]).context != Some(schema[k].0) by {
                    assert(!p(items[j]));
                }
            }
        }
        assert forall|i: int| 0 <= i < items.len() && (forall|k: int| 0 <= k < schema.len() ==> items[i].context != Some((#[trigger] schema[k]).0)) implies (
        #[trigger] fault(items, schema, i)) is None by {
            lemma_field_of(schema, items[i], 0);
        }
        if e.is_structure() {
            let fine = forall|k: int, i: int|
                0 <= k < schema.len() && 0 <= i < items.len() && (#[trigger] items[i]).context == Some((#[trigger] schema[k]).0)
                    ==> suits(schema[k], items[i]);
            let once = forall|k: int, i: int, j: int|
                0 <= k < schema.len() && 0 <= i < j < items.len() && (#[trigger] items[i]).context == Some((#[trigger] schema[k]).0)
                    ==> (#[trigger] items[j]).context != Some(schema[k].0);
            if fine && once {
                assert forall|i: int| 0 <= i < items.len() implies (#[trigger] fault(items, schema, i)) is None by {
                    if exists|k: int| 0 <= k < schema.len() && items[i].context == Some((#[trigger] schema[k]).0) {
                        let k = choose|k: int| 0 <= k < schema.len() && items[i].context == Some((#[trigger] schema[k]).0);
                        assert forall|j: int| 0 <= j < i implies (#[trigger] items[j]).context != Some(schema[k].0) by {
                            if items[j].context == Some(schema[k].0) {
                                assert(items[i].context != Some(schema[k].0));
                            }
                        }
                    }
                }
            } else {
                if !fine {
                    let (k, i) = choose|k: int, i: int|
                        0 <= k < schema.len() && 0 <= i < items.len() && (#[trigger] items[i]).context == Some((#[trigger] schema[k]).0)
                            && !suits(schema[k], items[i]);
                    assert(!(fault(items, schema, i) is None));
                } else {
                    let (k, i, j) = choose|k: int, i: int, j: int|
                        0 <= k < schema.len() && 0 <= i < j < items.len() && (#[trigger] items[i]).context == Some((#[trigger] schema[k]).0)
                            && (#[trigger] items[j]).context == Some(schema[k].0);
                    assert(!(fault(items, schema, j) is None));
                }
            }
        }
    }
}

/// What a field that was read holds is what its element holds, and a number is given back where it fits.
pub proof fn law_a_field_gives_what_it_holds(b: Seq<u8>, items: Seq<Element>, i: int, tag: u8)
    requires
        0 <= i < items.len(),
        items[i].context == Some(tag),
        forall|j: int| 0 <= j < i ==> (#[trigger] items[j]).context != Some(tag),
    ensures
        num(items, tag) == (match items[i].value {
            Value::Unsigned(v) => Some(v),
            _ => None,
        }),
        num8(items, tag) == (match items[i].value {
            Value::Unsigned(v) => if v < 0x100 { Some(v as u8) } else { None },
            _ => None,
        }),
        num16(items, tag) == (match items[i].value {
            Value::Unsigned(v) => if v < 0x1_0000 { Some(v as u16) } else { None },
            _ => None,
        }),
        num32(items, tag) == (match items[i].value {
            Value::Unsigned(v) => if v < 0x1_0000_0000 { Some(v as u32) } else { None },
            _ => None,
        }),
        octets(b, items, tag) == (if items[i].value is Octets { Some(tlv::octets_in(b, items[i])) } else { None }),
        flag(items, tag) == (match items[i].value {
            Value::Bool(v) => Some(v),
            _ => None,
        }),
{
    let p = tagged(tag);
    bounded::lemma_first(items, p);
    assert(p(items[i]));
    let at = bounded::first(items, p)->Some_0;
    assert(p(items[at]));
    assert(at == i);
}

/// A field that did not come gives nothing.
pub proof fn law_a_field_that_is_missing_gives_nothing(b: Seq<u8>, items: Seq<Element>, tag: u8)
    requires
        forall|j: int| 0 <= j < items.len() ==> (#[trigger] items[j]).context != Some(tag),
    ensures
        num(items, tag) is None,
        octets(b, items, tag) is None,
        text(b, items, tag) is None,
        flag(items, tag) is None,
        container(items, tag) is None,
{
    let p = tagged(tag);
    bounded::lemma_first(items, p);
    if let Some(i) = bounded::first(items, p) {
        assert(p(items[i]));
    }
}

} // verus!
