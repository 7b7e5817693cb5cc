//! The tag-length-value encoding that attributes and command fields travel in.
//!
//! The `*_bytes` functions say what each element looks like on the wire, [`element_at`] says
//! what a reader finds at a position, and [`scan`] what it finds in an open container. The
//! executable functions are proved against these.

use vstd::prelude::*;
use vstd::slice::slice_subrange;
use vstd::utf8;

verus! {

/// What a tag says about an element: nothing, or which field of its structure it is.
#[derive(Debug, Clone, Copy, PartialEq, Eq, Structural)]
pub enum Tag {
    /// No tag.
    Anonymous,
    /// The number of a field.
    Context(u8),
}

/// The three containers.
#[derive(Debug, Clone, Copy, PartialEq, Eq, Structural)]
pub enum ContainerKind {
    /// Fields, each with its tag.
    Structure,
    /// Items of one type, in order.
    Array,
    /// Items with or without tags, in order.
    List,
}

/// What an element holds. Texts, octet strings and containers are given by where they stand in
/// the data that was read.
#[derive(Debug, Clone, Copy, PartialEq, Eq, Structural)]
pub enum Value {
    /// An unsigned integer.
    Unsigned(u64),
    /// A signed integer.
    Signed(i64),
    /// A boolean.
    Bool(bool),
    /// A text, from the first position up to the second.
    Utf8(usize, usize),
    /// An octet string, from the first position up to the second.
    Octets(usize, usize),
    /// A floating-point number, whose value nothing here reads.
    Float,
    /// Null.
    Null,
    /// A container whose content starts at the position.
    Container(ContainerKind, usize),
    /// The end of the innermost open container.
    EndOfContainer,
}

/// One element.
#[derive(Debug, Clone, Copy, PartialEq, Eq, Structural)]
pub struct Element {
    /// The number of the field, for an element with a context tag.
    pub context: Option<u8>,
    /// What it holds.
    pub value: Value,
}

impl Element {
    /// Whether the element opens a structure.
    pub open spec fn is_structure(self) -> bool {
        self.value matches Value::Container(ContainerKind::Structure, _)
    }

    /// Whether the element opens an array.
    pub open spec fn is_array(self) -> bool {
        self.value matches Value::Container(ContainerKind::Array, _)
    }

    /// Where the content of the container starts.
    pub open spec fn content(self) -> int {
        self.value->Container_1 as int
    }
}

/// 256 to the power of `n`: how many values `n` octets tell apart.
pub open spec fn pow256(n: nat) -> nat
    decreases n,
{
    if n == 0 {
        1
    } else {
        256 * pow256((n - 1) as nat)
    }
}

/// The powers that fields of up to eight octets need.
pub proof fn lemma_pow256()
    ensures
        pow256(0) == 1,
        pow256(1) == 0x100,
        pow256(2) == 0x1_0000,
        pow256(3) == 0x100_0000,
        pow256(4) == 0x1_0000_0000,
        pow256(5) == 0x100_0000_0000,
        pow256(6) == 0x1_0000_0000_0000,
        pow256(7) == 0x100_0000_0000_0000,
        pow256(8) == 0x1_0000_0000_0000_0000,
{
    reveal_with_fuel(pow256, 9);
}

// --- Writing -----------------------------------------------------------------------------------

/// The `n` low octets of `v`, the lowest first.
pub open spec fn le_bytes(v: nat, n: nat) -> Seq<u8>
    decreases n,
{
    if n == 0 {
        Seq::empty()
    } else {
        seq![(v % 256) as u8] + le_bytes(v / 256, (n - 1) as nat)
    }
}

/// The control octet for an element of type `kind`, and its tag.
pub open spec fn header(tag: Tag, kind: u8) -> Seq<u8> {
    match tag {
        Tag::Anonymous => seq![kind],
        Tag::Context(n) => seq![(0x20 + kind) as u8, n],
    }
}

/// The exponent of the least width, of one, two, four or eight octets, that holds `v`.
pub open spec fn width_code(v: nat) -> u8 {
    if v <= 0xFF {
        0
    } else if v <= 0xFFFF {
        1
    } else if v <= 0xFFFF_FFFF {
        2
    } else {
        3
    }
}

/// The width that an exponent stands for.
pub open spec fn width(code: u8) -> nat {
    if code == 0 {
        1
    } else if code == 1 {
        2
    } else if code == 2 {
        4
    } else {
        8
    }
}

/// The exponent of the least width that holds the signed `v`.
pub open spec fn signed_code(v: int) -> u8 {
    if -0x80 <= v <= 0x7F {
        0
    } else if -0x8000 <= v <= 0x7FFF {
        1
    } else if -0x8000_0000 <= v <= 0x7FFF_FFFF {
        2
    } else {
        3
    }
}

/// `v` in two's complement over `n` octets.
pub open spec fn twos(v: int, n: nat) -> nat {
    if v < 0 {
        (v + pow256(n)) as nat
    } else {
        v as nat
    }
}

/// An unsigned integer.
pub open spec fn unsigned_bytes(tag: Tag, v: u64) -> Seq<u8> {
    header(tag, (4 + width_code(v as nat)) as u8) + le_bytes(v as nat, width(width_code(v as nat)))
}

/// A signed integer.
pub open spec fn signed_bytes(tag: Tag, v: i64) -> Seq<u8> {
    header(tag, signed_code(v as int)) + le_bytes(
        twos(v as int, width(signed_code(v as int))),
        width(signed_code(v as int)),
    )
}

/// A boolean.
pub open spec fn bool_bytes(tag: Tag, v: bool) -> Seq<u8> {
    header(tag, if v { 9 } else { 8 })
}

/// Null.
pub open spec fn null_bytes(tag: Tag) -> Seq<u8> {
    header(tag, 0x14)
}

/// A text, given by its octets.
pub open spec fn utf8_bytes(tag: Tag, s: Seq<u8>) -> Seq<u8> {
    header(tag, (0x0C + width_code(s.len())) as u8) + le_bytes(s.len(), width(width_code(s.len()))) + s
}

/// A text, given by its characters.
pub open spec fn text_bytes(tag: Tag, s: Seq<char>) -> Seq<u8> {
    utf8_bytes(tag, utf8::encode_utf8(s))
}

/// An octet string.
pub open spec fn octets_bytes(tag: Tag, s: Seq<u8>) -> Seq<u8> {
    header(tag, (0x10 + width_code(s.len())) as u8) + le_bytes(s.len(), width(width_code(s.len()))) + s
}

/// A structure with the given fields.
pub open spec fn structure_bytes(tag: Tag, fields: Seq<u8>) -> Seq<u8> {
    header(tag, 0x15) + fields + seq![0x18u8]
}

/// An array of the given items.
pub open spec fn array_bytes(tag: Tag, items: Seq<u8>) -> Seq<u8> {
    header(tag, 0x16) + items + seq![0x18u8]
}

/// A list of the given items.
pub open spec fn list_bytes(tag: Tag, items: Seq<u8>) -> Seq<u8> {
    header(tag, 0x17) + items + seq![0x18u8]
}

/// An unsigned integer, or null.
pub open spec fn nullable_bytes(tag: Tag, v: Option<u64>) -> Seq<u8> {
    match v {
        Some(v) => unsigned_bytes(tag, v),
        None => null_bytes(tag),
    }
}

/// A field that may be left out.
pub open spec fn optional_bytes(tag: Tag, v: Option<u64>) -> Seq<u8> {
    match v {
        Some(v) => unsigned_bytes(tag, v),
        None => Seq::empty(),
    }
}

/// Items one after the other, as `f` encodes each.
pub open spec fn concat<T>(items: Seq<T>, f: spec_fn(T) -> Seq<u8>) -> Seq<u8>
    decreases items.len(),
{
    if items.len() == 0 {
        Seq::empty()
    } else {
        concat(items.drop_last(), f) + f(items.last())
    }
}

/// One item more at the end of a concatenation.
pub proof fn lemma_concat_push<T>(items: Seq<T>, x: T, f: spec_fn(T) -> Seq<u8>)
    ensures
        concat(items.push(x), f) == concat(items, f) + f(x),
{
    assert(items.push(x).drop_last() =~= items);
}

/// One item more of a sequence.
pub proof fn lemma_concat_take<T>(items: Seq<T>, i: int, f: spec_fn(T) -> Seq<u8>)
    requires
        0 <= i < items.len(),
    ensures
        concat(items.take(i + 1), f) == concat(items.take(i), f) + f(items[i]),
{
    assert(items.take(i + 1) =~= items.take(i).push(items[i]));
    lemma_concat_push(items.take(i), items[i], f);
}

/// Appends octets.
pub fn put_bytes(out: &mut Vec<u8>, bytes: &[u8])
    ensures
        final(out)@ == old(out)@ + bytes@,
{
    let mut i: usize = 0;
    proof {
        assert(out@ =~= old(out)@ + bytes@.take(0));
    }
    while i < bytes.len()
        invariant
            i <= bytes@.len(),
            out@ == old(out)@ + bytes@.take(i as int),
        decreases bytes.len() - i,
    {
        out.push(bytes[i]);
        proof {
            assert(bytes@.take(i + 1) =~= bytes@.take(i as int).push(bytes@[i as int]));
            assert(out@ =~= old(out)@ + bytes@.take(i + 1));
        }
        i = i + 1;
    }
    proof {
        assert(bytes@.take(i as int) =~= bytes@);
    }
}

fn put_le(out: &mut Vec<u8>, v: u64, n: usize)
    ensures
        final(out)@ == old(out)@ + le_bytes(v as nat, n as nat),
    decreases n,
{
    if n > 0 {
        out.push((v % 256) as u8);
        let ghost mid = out@;
        put_le(out, v / 256, n - 1);
        proof {
            let rest = le_bytes((v / 256) as nat, (n - 1) as nat);
            assert(out@ == mid + rest);
            assert(mid + rest =~= old(out)@ + (seq![(v % 256) as u8] + rest));
        }
    } else {
        proof {
            assert(out@ =~= old(out)@ + Seq::<u8>::empty());
        }
    }
}

fn put_header(out: &mut Vec<u8>, tag: Tag, kind: u8)
    requires
        kind <= 0x18,
    ensures
        final(out)@ == old(out)@ + header(tag, kind),
{
    match tag {
        Tag::Anonymous => {
            out.push(kind);
        },
        Tag::Context(n) => {
            out.push(0x20 + kind);
            out.push(n);
        },
    }
    proof {
        assert(out@ =~= old(out)@ + header(tag, kind));
    }
}

fn code_of(v: u64) -> (code: u8)
    ensures
        code == width_code(v as nat),
        code <= 3,
{
    if v <= 0xFF {
        0
    } else if v <= 0xFFFF {
        1
    } else if v <= 0xFFFF_FFFF {
        2
    } else {
        3
    }
}

fn width_of(code: u8) -> (n: usize)
    ensures
        n == width(code),
        1 <= n <= 8,
{
    if code == 0 {
        1
    } else if code == 1 {
        2
    } else if code == 2 {
        4
    } else {
        8
    }
}

/// Appends an unsigned integer.
pub fn put_unsigned(out: &mut Vec<u8>, tag: Tag, v: u64)
    ensures
        final(out)@ == old(out)@ + unsigned_bytes(tag, v),
{
    let code: u8 = code_of(v);
    put_header(out, tag, 4 + code);
    put_le(out, v, width_of(code));
    proof {
        assert(out@ =~= old(out)@ + unsigned_bytes(tag, v));
    }
}

/// Appends a signed integer.
pub fn put_signed(out: &mut Vec<u8>, tag: Tag, v: i64)
    ensures
        final(out)@ == old(out)@ + signed_bytes(tag, v),
{
    let code: u8 = if -0x80 <= v && v <= 0x7F {
        0
    } else if -0x8000 <= v && v <= 0x7FFF {
        1
    } else if -0x8000_0000 <= v && v <= 0x7FFF_FFFF {
        2
    } else {
        3
    };
    let most: u64 = most_of(code);
    proof {
        lemma_pow256();
    }
    let u: u64 = if v < 0 {
        most - ((-(v + 1)) as u64)
    } else {
        v as u64
    };
    put_header(out, tag, code);
    put_le(out, u, width_of(code));
    proof {
        assert(out@ =~= old(out)@ + signed_bytes(tag, v));
    }
}

/// The largest value that a width holds.
fn most_of(code: u8) -> (most: u64)
    ensures
        most == pow256(width(code)) - 1,
{
    proof {
        lemma_pow256();
    }
    if code == 0 {
        0xFF
    } else if code == 1 {
        0xFFFF
    } else if code == 2 {
        0xFFFF_FFFF
    } else {
        0xFFFF_FFFF_FFFF_FFFF
    }
}

/// Appends a boolean.
pub fn put_bool(out: &mut Vec<u8>, tag: Tag, v: bool)
    ensures
        final(out)@ == old(out)@ + bool_bytes(tag, v),
{
    put_header(out, tag, if v { 9 } else { 8 });
}

/// Appends null.
pub fn put_null(out: &mut Vec<u8>, tag: Tag)
    ensures
        final(out)@ == old(out)@ + null_bytes(tag),
{
    put_header(out, tag, 0x14);
}

/// Appends an unsigned integer or null.
pub fn put_nullable(out: &mut Vec<u8>, tag: Tag, v: Option<u64>)
    ensures
        final(out)@ == old(out)@ + nullable_bytes(tag, v),
{
    match v {
        Some(v) => put_unsigned(out, tag, v),
        None => put_null(out, tag),
    }
}

/// Appends an unsigned integer where there is one.
pub fn put_optional(out: &mut Vec<u8>, tag: Tag, v: Option<u64>)
    ensures
        final(out)@ == old(out)@ + optional_bytes(tag, v),
{
    match v {
        Some(v) => put_unsigned(out, tag, v),
        None => {
            proof {
                assert(out@ =~= old(out)@ + Seq::<u8>::empty());
            }
        },
    }
}

/// Appends a text.
pub fn put_text(out: &mut Vec<u8>, tag: Tag, s: &str)
    ensures
        final(out)@ == old(out)@ + text_bytes(tag, s@),
{
    let bytes: &[u8] = s.as_bytes();
    let code: u8 = code_of(bytes.len() as u64);
    put_header(out, tag, 0x0C + code);
    put_le(out, bytes.len() as u64, width_of(code));
    put_bytes(out, bytes);
    proof {
        assert(out@ =~= old(out)@ + text_bytes(tag, s@));
    }
}

/// Appends a text that is encoded already.
pub fn put_utf8(out: &mut Vec<u8>, tag: Tag, bytes: &[u8])
    ensures
        final(out)@ == old(out)@ + utf8_bytes(tag, bytes@),
{
    let code: u8 = code_of(bytes.len() as u64);
    put_header(out, tag, 0x0C + code);
    put_le(out, bytes.len() as u64, width_of(code));
    put_bytes(out, bytes);
    proof {
        assert(out@ =~= old(out)@ + utf8_bytes(tag, bytes@));
    }
}

/// Appends an octet string.
pub fn put_octets(out: &mut Vec<u8>, tag: Tag, bytes: &[u8])
    ensures
        final(out)@ == old(out)@ + octets_bytes(tag, bytes@),
{
    let code: u8 = code_of(bytes.len() as u64);
    put_header(out, tag, 0x10 + code);
    put_le(out, bytes.len() as u64, width_of(code));
    put_bytes(out, bytes);
    proof {
        assert(out@ =~= old(out)@ + octets_bytes(tag, bytes@));
    }
}

/// Appends a structure around fields that are encoded already.
pub fn put_structure(out: &mut Vec<u8>, tag: Tag, fields: &Vec<u8>)
    ensures
        final(out)@ == old(out)@ + structure_bytes(tag, fields@),
{
    put_header(out, tag, 0x15);
    put_bytes(out, fields.as_slice());
    out.push(0x18);
    proof {
        assert(out@ =~= old(out)@ + structure_bytes(tag, fields@));
    }
}

/// Appends an array around items that are encoded already.
pub fn put_array(out: &mut Vec<u8>, tag: Tag, items: &Vec<u8>)
    ensures
        final(out)@ == old(out)@ + array_bytes(tag, items@),
{
    put_header(out, tag, 0x16);
    put_bytes(out, items.as_slice());
    out.push(0x18);
    proof {
        assert(out@ =~= old(out)@ + array_bytes(tag, items@));
    }
}

/// A value that a number stands for.
pub trait Numbered: Copy {
    /// The number.
    spec fn number(self) -> u64;

    /// The number.
    fn as_number(self) -> (v: u64)
        ensures
            v == self.number(),
    ;
}

impl Numbered for u16 {
    open spec fn number(self) -> u64 {
        self as u64
    }

    fn as_number(self) -> (v: u64) {
        self as u64
    }
}

impl Numbered for u32 {
    open spec fn number(self) -> u64 {
        self as u64
    }

    fn as_number(self) -> (v: u64) {
        self as u64
    }
}

/// A value as an item of a list.
pub open spec fn item_bytes<T: Numbered>() -> spec_fn(T) -> Seq<u8> {
    |x: T| unsigned_bytes(Tag::Anonymous, x.number())
}

/// A list of values.
pub open spec fn numbers_bytes<T: Numbered>(tag: Tag, items: Seq<T>) -> Seq<u8> {
    array_bytes(tag, concat(items, item_bytes::<T>()))
}

/// Appends a list of values.
pub fn put_numbers<T: Numbered>(out: &mut Vec<u8>, tag: Tag, items: &[T])
    ensures
        final(out)@ == old(out)@ + numbers_bytes(tag, items@),
{
    let mut body: Vec<u8> = Vec::new();
    let mut i: usize = 0;
    proof {
        assert(items@.take(0) =~= Seq::<T>::empty());
        assert(body@ =~= concat(items@.take(0), item_bytes::<T>()));
    }
    while i < items.len()
        invariant
            i <= items@.len(),
            body@ == concat(items@.take(i as int), item_bytes::<T>()),
        decreases items.len() - i,
    {
        put_unsigned(&mut body, Tag::Anonymous, items[i].as_number());
        proof {
            lemma_concat_take(items@, i as int, item_bytes::<T>());
        }
        i = i + 1;
    }
    proof {
        assert(items@.take(i as int) =~= items@);
    }
    put_array(out, tag, &body);
}

/// A value with a form on the wire.
pub trait ToTlv: Sized {
    /// The form.
    spec fn tlv(self, tag: Tag) -> Seq<u8>;

    /// Appends it.
    fn to_tlv(&self, out: &mut Vec<u8>, tag: Tag)
        ensures
            final(out)@ == old(out)@ + self.tlv(tag),
    ;
}

/// A value as an item of a list.
pub open spec fn member_bytes<T: ToTlv>() -> spec_fn(T) -> Seq<u8> {
    |x: T| x.tlv(Tag::Anonymous)
}

/// A list of values.
pub open spec fn members_bytes<T: ToTlv>(tag: Tag, items: Seq<T>) -> Seq<u8> {
    array_bytes(tag, concat(items, member_bytes::<T>()))
}

/// Appends a list of values.
pub fn put_members<T: ToTlv>(out: &mut Vec<u8>, tag: Tag, items: &[T])
    ensures
        final(out)@ == old(out)@ + members_bytes(tag, items@),
{
    let mut body: Vec<u8> = Vec::new();
    let mut i: usize = 0;
    proof {
        assert(items@.take(0) =~= Seq::<T>::empty());
        assert(body@ =~= concat(items@.take(0), member_bytes::<T>()));
    }
    while i < items.len()
        invariant
            i <= items@.len(),
            body@ == concat(items@.take(i as int), member_bytes::<T>()),
        decreases items.len() - i,
    {
        items[i].to_tlv(&mut body, Tag::Anonymous);
        proof {
            lemma_concat_take(items@, i as int, member_bytes::<T>());
        }
        i = i + 1;
    }
    proof {
        assert(items@.take(i as int) =~= items@);
    }
    put_array(out, tag, &body);
}

/// A number with a sign, or null.
pub open spec fn nullable_signed_bytes(tag: Tag, v: Option<i64>) -> Seq<u8> {
    match v {
        Some(v) => signed_bytes(tag, v),
        None => null_bytes(tag),
    }
}

/// Appends a number with a sign, or null.
pub fn put_nullable_signed(out: &mut Vec<u8>, tag: Tag, v: Option<i64>)
    ensures
        final(out)@ == old(out)@ + nullable_signed_bytes(tag, v),
{
    match v {
        Some(v) => put_signed(out, tag, v),
        None => put_null(out, tag),
    }
}

/// A truth value, or null.
pub open spec fn nullable_bool_bytes(tag: Tag, v: Option<bool>) -> Seq<u8> {
    match v {
        Some(v) => bool_bytes(tag, v),
        None => null_bytes(tag),
    }
}

/// Appends a truth value, or null.
pub fn put_nullable_bool(out: &mut Vec<u8>, tag: Tag, v: Option<bool>)
    ensures
        final(out)@ == old(out)@ + nullable_bool_bytes(tag, v),
{
    match v {
        Some(v) => put_bool(out, tag, v),
        None => put_null(out, tag),
    }
}

/// Where an answer is written: a buffer of a fixed size.
pub struct TlvWriter {
    out: Vec<u8>,
    capacity: usize,
}

impl View for TlvWriter {
    type V = Seq<u8>;

    closed spec fn view(&self) -> Seq<u8> {
        self.out@
    }
}

impl TlvWriter {
    /// How many octets still fit.
    pub closed spec fn room(&self) -> int {
        self.capacity - self.out@.len()
    }

    /// Whether it is another buffer with octets written to it, and with as much less room.
    pub open spec fn has_written(&self, before: TlvWriter, bytes: Seq<u8>) -> bool {
        &&& self@ == before@ + bytes
        &&& self.room() == before.room() - bytes.len()
    }

    /// An empty buffer of `capacity` octets.
    pub fn new(capacity: usize) -> (w: Self)
        ensures
            w@ == Seq::<u8>::empty(),
            w.room() == capacity,
    {
        TlvWriter { out: Vec::new(), capacity }
    }

    /// Writes octets that fit; otherwise nothing, and `false`.
    pub fn append(&mut self, bytes: &[u8]) -> (written: bool)
        ensures
            written == (bytes@.len() <= old(self).room()),
            final(self).has_written(*old(self), if written { bytes@ } else { Seq::empty() }),
    {
        if self.out.len() > self.capacity || bytes.len() > self.capacity - self.out.len() {
            return false;
        }
        put_bytes(&mut self.out, bytes);
        true
    }

    /// What was written.
    pub fn finish(&self) -> (bytes: &[u8])
        ensures
            bytes@ == self@,
    {
        self.out.as_slice()
    }
}

// --- Reading -----------------------------------------------------------------------------------

/// The integer in the `n` octets from `pos` on, the lowest first.
pub open spec fn le_value(b: Seq<u8>, pos: int, n: nat) -> nat
    decreases n,
{
    if n == 0 {
        0
    } else {
        b[pos] as nat + 256 * le_value(b, pos + 1, (n - 1) as nat)
    }
}

/// `v`, read as two's complement over `n` octets.
pub open spec fn signed_value(v: nat, n: nat) -> int {
    if v >= pow256(n) / 2 {
        v - pow256(n)
    } else {
        v as int
    }
}

/// How many octets a tag of each form takes.
pub open spec fn tag_length(form: u8) -> nat {
    if form == 0 {
        0
    } else if form == 1 {
        1
    } else if form == 2 || form == 4 {
        2
    } else if form == 3 || form == 5 {
        4
    } else if form == 6 {
        6
    } else {
        8
    }
}

/// The element that starts at `pos`, and where its header and any plain value end; `None` where
/// there is none or it is malformed.
pub open spec fn element_at(b: Seq<u8>, pos: int) -> Option<(Element, int)> {
    if !(0 <= pos < b.len()) {
        None
    } else {
        let form = b[pos] / 32;
        let kind = b[pos] % 32;
        let at = pos + 1 + tag_length(form);
        let context = if form == 1 { Some(b[pos + 1]) } else { None::<u8> };
        if at > b.len() {
            None
        } else {
            match value_at(b, at, kind, form) {
                Some((value, next)) => Some((Element { context, value }, next)),
                None => None,
            }
        }
    }
}

/// The value of an element of type `kind` whose tag ends at `at`, and where it ends.
pub open spec fn value_at(b: Seq<u8>, at: int, kind: u8, form: u8) -> Option<(Value, int)> {
    let n = width((kind % 4) as u8);
    if kind <= 7 {
        if at + n > b.len() {
            None
        } else if kind <= 3 {
            Some((Value::Signed(signed_value(le_value(b, at, n), n) as i64), at + n))
        } else {
            Some((Value::Unsigned(le_value(b, at, n) as u64), at + n))
        }
    } else if kind <= 9 {
        Some((Value::Bool(kind == 9), at))
    } else if kind <= 0x0B {
        let n = if kind == 0x0A { 4int } else { 8 };
        if at + n > b.len() {
            None
        } else {
            Some((Value::Float, at + n))
        }
    } else if kind <= 0x13 {
        let start = at + n;
        if start > b.len() || start + le_value(b, at, n) > b.len() {
            None
        } else {
            let end = start + le_value(b, at, n);
            if kind >= 0x10 {
                Some((Value::Octets(start as usize, end as usize), end))
            } else if utf8::valid_utf8(b.subrange(start, end)) {
                Some((Value::Utf8(start as usize, end as usize), end))
            } else {
                None
            }
        }
    } else if kind == 0x14 {
        Some((Value::Null, at))
    } else if kind == 0x15 {
        Some((Value::Container(ContainerKind::Structure, at as usize), at))
    } else if kind == 0x16 {
        Some((Value::Container(ContainerKind::Array, at as usize), at))
    } else if kind == 0x17 {
        Some((Value::Container(ContainerKind::List, at as usize), at))
    } else if kind == 0x18 && form == 0 {
        Some((Value::EndOfContainer, at))
    } else {
        None
    }
}

/// Reading an element moves forward and stays inside the data.
pub proof fn lemma_element_at(b: Seq<u8>, pos: int)
    ensures
        element_at(b, pos) matches Some((e, next)) ==> 0 <= pos < next <= b.len(),
{
}

/// The position behind the end of `depth` containers that are open at `pos`.
pub open spec fn close_at(b: Seq<u8>, pos: int, depth: nat) -> Option<int>
    decreases b.len() - pos,
{
    if depth == 0 {
        Some(pos)
    } else {
        match element_at(b, pos) {
            None => None,
            Some((e, next)) => {
                proof {
                    lemma_element_at(b, pos);
                }
                match e.value {
                    Value::EndOfContainer => close_at(b, next, (depth - 1) as nat),
                    Value::Container(_, _) => close_at(b, next, depth + 1),
                    _ => close_at(b, next, depth),
                }
            },
        }
    }
}

/// The position behind an element whose header ends at `next`, its content included.
pub open spec fn behind(b: Seq<u8>, e: Element, next: int) -> Option<int> {
    match e.value {
        Value::Container(_, _) => close_at(b, next, 1),
        _ => Some(next),
    }
}

/// Closing containers moves forward and stays inside the data.
pub proof fn lemma_close_at(b: Seq<u8>, pos: int, depth: nat)
    requires
        0 <= pos <= b.len(),
    ensures
        close_at(b, pos, depth) matches Some(p) ==> pos <= p <= b.len(),
    decreases b.len() - pos,
{
    if depth > 0 {
        lemma_element_at(b, pos);
        match element_at(b, pos) {
            None => {},
            Some((e, next)) => {
                match e.value {
                    Value::EndOfContainer => lemma_close_at(b, next, (depth - 1) as nat),
                    Value::Container(_, _) => lemma_close_at(b, next, depth + 1),
                    _ => lemma_close_at(b, next, depth),
                }
            },
        }
    }
}

/// What an open container holds: its own elements in order, and whether its end was reached
/// before the data ran out or went wrong.
pub struct Scanned {
    /// The elements.
    pub items: Seq<Element>,
    /// Whether the end of the container was found.
    pub complete: bool,
}

/// What the container whose content starts at `pos` holds.
pub open spec fn scan(b: Seq<u8>, pos: int) -> Scanned
    decreases b.len() - pos,
{
    match element_at(b, pos) {
        None => Scanned { items: Seq::empty(), complete: false },
        Some((e, next)) => {
            if e.value is EndOfContainer {
                Scanned { items: Seq::empty(), complete: true }
            } else {
                match behind(b, e, next) {
                    None => Scanned { items: seq![e], complete: false },
                    Some(after) => {
                        proof {
                            lemma_element_at(b, pos);
                            lemma_close_at(b, next, 1);
                        }
                        let rest = scan(b, after);
                        Scanned { items: seq![e] + rest.items, complete: rest.complete }
                    },
                }
            }
        },
    }
}

/// The text that an element holds.
pub open spec fn text_in(b: Seq<u8>, e: Element) -> Seq<char> {
    utf8::decode_utf8(b.subrange(e.value->Utf8_0 as int, e.value->Utf8_1 as int))
}

/// The octets that an element holds.
pub open spec fn octets_in(b: Seq<u8>, e: Element) -> Seq<u8> {
    b.subrange(e.value->Octets_0 as int, e.value->Octets_1 as int)
}

/// Whether the positions that an element gives lie inside the data, and a text there is one.
pub open spec fn inside(b: Seq<u8>, e: Element) -> bool {
    match e.value {
        Value::Utf8(start, end) => start <= end <= b.len() && utf8::valid_utf8(
            b.subrange(start as int, end as int),
        ),
        Value::Octets(start, end) => start <= end <= b.len(),
        Value::Container(_, start) => start <= b.len(),
        _ => true,
    }
}

/// What the elements of a container point to lies inside the data.
pub proof fn lemma_scan_inside(b: Seq<u8>, pos: int)
    requires
        b.len() <= usize::MAX,
    ensures
        forall|i: int| 0 <= i < scan(b, pos).items.len() ==> inside(b, #[trigger] scan(b, pos).items[i]),
    decreases b.len() - pos,
{
    if let Some((e, next)) = element_at(b, pos) {
        lemma_element_at(b, pos);
        assert(inside(b, e));
        if !(e.value is EndOfContainer) {
            lemma_close_at(b, next, 1);
            if let Some(after) = behind(b, e, next) {
                lemma_scan_inside(b, after);
                let rest = scan(b, after).items;
                assert forall|i: int| 0 <= i < scan(b, pos).items.len() implies inside(
                    b,
                    #[trigger] scan(b, pos).items[i],
                ) by {
                    if i > 0 {
                        assert(scan(b, pos).items[i] == rest[i - 1]);
                    }
                }
            }
        }
    }
}

/// `core::str::from_utf8`: the text that octets encode, where they are UTF-8.
#[verifier::external_body]
fn as_text(bytes: &[u8]) -> (t: Option<&str>)
    ensures
        (t is Some) == utf8::valid_utf8(bytes@),
        t matches Some(s) ==> s@ == utf8::decode_utf8(bytes@),
{
    core::str::from_utf8(bytes).ok()
}

fn read_le(data: &[u8], pos: usize, n: usize) -> (v: u64)
    requires
        pos + n <= data@.len(),
        n <= 8,
    ensures
        v == le_value(data@, pos as int, n as nat),
        v < pow256(n as nat),
{
    let mut v: u64 = 0;
    let mut i: usize = n;
    let length: usize = data.len();
    while i > 0
        invariant
            i <= n <= 8,
            pos + n <= length == data@.len(),
            v == le_value(data@, pos + i, (n - i) as nat),
            v < pow256((n - i) as nat),
        decreases i,
    {
        proof {
            lemma_pow256();
            let k = (n - i) as nat;
            assert(pow256(k) <= 0x100_0000_0000_0000);
            assert(pow256(k + 1) == 256 * pow256(k));
        }
        i = i - 1;
        v = v * 256 + data[pos + i] as u64;
    }
    v
}

fn read_signed(v: u64, code: u8) -> (s: i64)
    requires
        v < pow256(width(code)),
    ensures
        s == signed_value(v as nat, width(code)),
{
    let most: u64 = most_of(code);
    proof {
        lemma_pow256();
    }
    if v > most / 2 {
        -((most - v) as i64) - 1
    } else {
        v as i64
    }
}

/// Reads the element at a position.
pub fn read_element(data: &[u8], pos: usize) -> (r: Option<(Element, usize)>)
    ensures
        match r {
            Some((e, next)) => element_at(data@, pos as int) == Some((e, next as int)) && pos < next
                <= data@.len() && inside(data@, e),
            None => element_at(data@, pos as int) is None,
        },
{
    if pos >= data.len() {
        return None;
    }
    let control: u8 = data[pos];
    let form: u8 = control / 32;
    let kind: u8 = control % 32;
    let tag: usize = if form == 0 {
        0
    } else if form == 1 {
        1
    } else if form == 2 || form == 4 {
        2
    } else if form == 3 || form == 5 {
        4
    } else if form == 6 {
        6
    } else {
        8
    };
    if data.len() - pos - 1 < tag {
        return None;
    }
    let at: usize = pos + 1 + tag;
    let context: Option<u8> = if form == 1 { Some(data[pos + 1]) } else { None };
    let code: u8 = kind % 4;
    let n: usize = width_of(code);
    if kind <= 7 {
        if data.len() - at < n {
            return None;
        }
        let raw: u64 = read_le(data, at, n);
        if kind <= 3 {
            let s: i64 = read_signed(raw, code);
            return Some((Element { context, value: Value::Signed(s) }, at + n));
        }
        return Some((Element { context, value: Value::Unsigned(raw) }, at + n));
    }
    if kind <= 9 {
        return Some((Element { context, value: Value::Bool(kind == 9) }, at));
    }
    if kind <= 0x0B {
        let n: usize = if kind == 0x0A { 4 } else { 8 };
        if data.len() - at < n {
            return None;
        }
        return Some((Element { context, value: Value::Float }, at + n));
    }
    if kind <= 0x13 {
        if data.len() - at < n {
            return None;
        }
        let length: u64 = read_le(data, at, n);
        let start: usize = at + n;
        if length > (data.len() - start) as u64 {
            return None;
        }
        let end: usize = start + length as usize;
        if kind >= 0x10 {
            return Some((Element { context, value: Value::Octets(start, end) }, end));
        }
        return match as_text(slice_subrange(data, start, end)) {
            Some(_) => Some((Element { context, value: Value::Utf8(start, end) }, end)),
            None => None,
        };
    }
    if kind == 0x14 {
        Some((Element { context, value: Value::Null }, at))
    } else if kind == 0x15 {
        Some((Element { context, value: Value::Container(ContainerKind::Structure, at) }, at))
    } else if kind == 0x16 {
        Some((Element { context, value: Value::Container(ContainerKind::Array, at) }, at))
    } else if kind == 0x17 {
        Some((Element { context, value: Value::Container(ContainerKind::List, at) }, at))
    } else if kind == 0x18 && form == 0 {
        Some((Element { context, value: Value::EndOfContainer }, at))
    } else {
        None
    }
}

/// Finds the end of a container whose content starts at a position.
fn close(data: &[u8], start: usize) -> (r: Option<usize>)
    requires
        1 <= start <= data@.len(),
    ensures
        match r {
            Some(p) => close_at(data@, start as int, 1) == Some(p as int) && start <= p <= data@.len(),
            None => close_at(data@, start as int, 1) is None,
        },
{
    let mut pos: usize = start;
    let mut depth: usize = 1;
    let length: usize = data.len();
    while depth > 0
        invariant
            1 <= start <= pos <= length == data@.len(),
            depth <= 1 + pos - start,
            close_at(data@, start as int, 1) == close_at(data@, pos as int, depth as nat),
        decreases length - pos,
    {
        match read_element(data, pos) {
            None => {
                return None;
            },
            Some((e, next)) => {
                match e.value {
                    Value::EndOfContainer => {
                        depth = depth - 1;
                    },
                    Value::Container(_, _) => {
                        depth = depth + 1;
                    },
                    _ => {},
                }
                pos = next;
            },
        }
    }
    Some(pos)
}

/// The elements of a container, and whether its end was found.
pub struct Items {
    /// The elements, in order.
    pub items: Vec<Element>,
    /// Whether the end of the container was found.
    pub complete: bool,
}

/// Reads what the container whose content starts at a position holds.
pub fn read_items(data: &[u8], start: usize) -> (r: Items)
    requires
        start <= data@.len(),
    ensures
        r.items@ == scan(data@, start as int).items,
        r.complete == scan(data@, start as int).complete,
        forall|i: int| 0 <= i < r.items@.len() ==> inside(data@, #[trigger] r.items@[i]),
{
    let mut items: Vec<Element> = Vec::new();
    let mut pos: usize = start;
    proof {
        assert(scan(data@, start as int).items =~= items@ + scan(data@, pos as int).items);
    }
    loop
        invariant
            start <= pos <= data@.len(),
            scan(data@, start as int).items == items@ + scan(data@, pos as int).items,
            scan(data@, start as int).complete == scan(data@, pos as int).complete,
            forall|i: int| 0 <= i < items@.len() ==> inside(data@, #[trigger] items@[i]),
        decreases data.len() - pos,
    {
        match read_element(data, pos) {
            None => {
                proof {
                    assert(items@ + Seq::<Element>::empty() =~= items@);
                }
                return Items { items, complete: false };
            },
            Some((e, next)) => {
                let ghost before = items@;
                let after: Option<usize> = match e.value {
                    Value::EndOfContainer => {
                        proof {
                            assert(items@ + Seq::<Element>::empty() =~= items@);
                        }
                        return Items { items, complete: true };
                    },
                    Value::Container(_, _) => close(data, next),
                    _ => Some(next),
                };
                items.push(e);
                match after {
                    None => {
                        proof {
                            assert(items@ =~= before + seq![e]);
                        }
                        return Items { items, complete: false };
                    },
                    Some(p) => {
                        pos = p;
                        proof {
                            let rest = scan(data@, p as int).items;
                            assert(before + (seq![e] + rest) =~= before.push(e) + rest);
                        }
                    },
                }
            },
        }
    }
}

/// The text of an element that holds one.
pub fn text_at<'a>(data: &'a [u8], e: &Element) -> (t: Option<&'a str>)
    requires
        inside(data@, *e),
    ensures
        (t is Some) == (e.value is Utf8),
        t matches Some(s) ==> s@ == text_in(data@, *e),
{
    match e.value {
        Value::Utf8(start, end) => as_text(slice_subrange(data, start, end)),
        _ => None,
    }
}

/// The octets of an element that holds an octet string.
pub fn octets_at<'a>(data: &'a [u8], e: &Element) -> (o: Option<&'a [u8]>)
    requires
        inside(data@, *e),
    ensures
        (o is Some) == (e.value is Octets),
        o matches Some(s) ==> s@ == octets_in(data@, *e),
{
    match e.value {
        Value::Octets(start, end) => Some(slice_subrange(data, start, end)),
        _ => None,
    }
}

// --- What is written is read back --------------------------------------------------------------

/// The number that a tag gives to a field.
pub open spec fn field_of(tag: Tag) -> Option<u8> {
    match tag {
        Tag::Anonymous => None,
        Tag::Context(n) => Some(n),
    }
}

/// Whether `x` stands at `pos`.
pub open spec fn stands(b: Seq<u8>, pos: int, x: Seq<u8>) -> bool {
    0 <= pos && pos + x.len() <= b.len() && b.subrange(pos, pos + x.len()) == x
}

/// Each part of what stands at a position stands at its own.
pub proof fn lemma_stands_part(b: Seq<u8>, pos: int, x: Seq<u8>, from: int, to: int)
    requires
        stands(b, pos, x),
        0 <= from <= to <= x.len(),
    ensures
        stands(b, pos + from, x.subrange(from, to)),
{
    assert(b.subrange(pos + from, pos + from + (to - from)) =~= b.subrange(pos, pos + x.len()).subrange(from, to));
}

/// Each of two parts one after the other stands at its own position.
pub proof fn lemma_stands_both(b: Seq<u8>, pos: int, x: Seq<u8>, y: Seq<u8>)
    requires
        stands(b, pos, x + y),
    ensures
        stands(b, pos, x),
        stands(b, pos + x.len(), y),
{
    lemma_stands_part(b, pos, x + y, 0, x.len() as int);
    lemma_stands_part(b, pos, x + y, x.len() as int, (x + y).len() as int);
    assert((x + y).subrange(0, x.len() as int) =~= x);
    assert((x + y).subrange(x.len() as int, (x + y).len() as int) =~= y);
}

proof fn lemma_le_bytes_len(v: nat, n: nat)
    ensures
        le_bytes(v, n).len() == n,
    decreases n,
{
    if n > 0 {
        lemma_le_bytes_len(v / 256, (n - 1) as nat);
    }
}

/// The octets of an integer give it back.
proof fn lemma_le_back(b: Seq<u8>, pos: int, v: nat, n: nat)
    requires
        stands(b, pos, le_bytes(v, n)),
        v < pow256(n),
    ensures
        le_value(b, pos, n) == v,
    decreases n,
{
    if n > 0 {
        let low = seq![(v % 256) as u8];
        let rest = le_bytes(v / 256, (n - 1) as nat);
        lemma_stands_both(b, pos, low, rest);
        assert(b[pos] == b.subrange(pos, pos + 1)[0]);
        assert(pow256(n) == 256 * pow256((n - 1) as nat));
        lemma_le_back(b, pos + 1, v / 256, (n - 1) as nat);
    }
}

/// Where a header stands, the form, the type and the tag are read from it.
proof fn lemma_header_back(b: Seq<u8>, pos: int, tag: Tag, kind: u8)
    requires
        stands(b, pos, header(tag, kind)),
        kind < 32,
    ensures
        header(tag, kind).len() == 1 + tag_length((b[pos] / 32) as u8),
        b[pos] % 32 == kind,
        b[pos] / 32 == (if tag is Anonymous { 0u8 } else { 1u8 }),
        (b[pos] / 32 == 1) ==> Some(b[pos + 1]) == field_of(tag),
{
    let h = header(tag, kind);
    assert(b.subrange(pos, pos + h.len())[0] == h[0]);
    if tag is Context {
        assert(b.subrange(pos, pos + h.len())[1] == h[1]);
    }
}

/// The positions behind a header and behind a plain value.
proof fn lemma_value_back(b: Seq<u8>, pos: int, tag: Tag, kind: u8, body: Seq<u8>)
    requires
        stands(b, pos, header(tag, kind) + body),
        kind < 32,
    ensures
        ({
            let at = pos + header(tag, kind).len();
            let form = if tag is Anonymous { 0u8 } else { 1u8 };
            &&& stands(b, at, body)
            &&& element_at(b, pos) == (match value_at(b, at, kind, form) {
                Some((value, next)) => Some((Element { context: field_of(tag), value }, next)),
                None => None,
            })
        }),
{
    lemma_stands_both(b, pos, header(tag, kind), body);
    lemma_header_back(b, pos, tag, kind);
}

/// An unsigned integer that was written is read back, wherever it stands.
pub proof fn law_unsigned_round_trip(b: Seq<u8>, pos: int, tag: Tag, v: u64)
    requires
        stands(b, pos, unsigned_bytes(tag, v)),
    ensures
        element_at(b, pos) == Some(
            (Element { context: field_of(tag), value: Value::Unsigned(v) }, pos + unsigned_bytes(tag, v).len()),
        ),
{
    let code = width_code(v as nat);
    let n = width(code);
    lemma_pow256();
    lemma_le_bytes_len(v as nat, n);
    lemma_value_back(b, pos, tag, (4 + code) as u8, le_bytes(v as nat, n));
    lemma_le_back(b, pos + header(tag, (4 + code) as u8).len(), v as nat, n);
}

/// A signed integer that was written is read back, wherever it stands.
pub proof fn law_signed_round_trip(b: Seq<u8>, pos: int, tag: Tag, v: i64)
    requires
        stands(b, pos, signed_bytes(tag, v)),
    ensures
        element_at(b, pos) == Some(
            (Element { context: field_of(tag), value: Value::Signed(v) }, pos + signed_bytes(tag, v).len()),
        ),
{
    let code = signed_code(v as int);
    let n = width(code);
    lemma_pow256();
    lemma_le_bytes_len(twos(v as int, n), n);
    lemma_value_back(b, pos, tag, code, le_bytes(twos(v as int, n), n));
    lemma_le_back(b, pos + header(tag, code).len(), twos(v as int, n), n);
}

/// A boolean that was written is read back, wherever it stands.
pub proof fn law_bool_round_trip(b: Seq<u8>, pos: int, tag: Tag, v: bool)
    requires
        stands(b, pos, bool_bytes(tag, v)),
    ensures
        element_at(b, pos) == Some(
            (Element { context: field_of(tag), value: Value::Bool(v) }, pos + bool_bytes(tag, v).len()),
        ),
{
    let kind = if v { 9u8 } else { 8u8 };
    assert(header(tag, kind) + Seq::<u8>::empty() =~= header(tag, kind));
    lemma_value_back(b, pos, tag, kind, Seq::empty());
}

/// A null that was written is read back, wherever it stands.
pub proof fn law_null_round_trip(b: Seq<u8>, pos: int, tag: Tag)
    requires
        stands(b, pos, null_bytes(tag)),
    ensures
        element_at(b, pos) == Some(
            (Element { context: field_of(tag), value: Value::Null }, pos + null_bytes(tag).len()),
        ),
{
    assert(header(tag, 0x14) + Seq::<u8>::empty() =~= header(tag, 0x14));
    lemma_value_back(b, pos, tag, 0x14, Seq::empty());
}

/// An octet string that was written is read back, wherever it stands in data that memory can hold.
pub proof fn law_octets_round_trip(b: Seq<u8>, pos: int, tag: Tag, s: Seq<u8>)
    requires
        stands(b, pos, octets_bytes(tag, s)),
        b.len() <= usize::MAX,
    ensures
        element_at(b, pos) matches Some((e, next)) && e.context == field_of(tag) && e.value is Octets && octets_in(b, e) == s
            && next == pos + octets_bytes(tag, s).len(),
{
    let code = width_code(s.len());
    let n = width(code);
    let kind = (0x10 + code) as u8;
    lemma_pow256();
    lemma_le_bytes_len(s.len(), n);
    assert(octets_bytes(tag, s) =~= header(tag, kind) + (le_bytes(s.len(), n) + s));
    lemma_value_back(b, pos, tag, kind, le_bytes(s.len(), n) + s);
    let at = pos + header(tag, kind).len();
    lemma_stands_both(b, at, le_bytes(s.len(), n), s);
    lemma_le_back(b, at, s.len(), n);
}

/// A text that was written is read back, wherever it stands in data that memory can hold.
pub proof fn law_text_round_trip(b: Seq<u8>, pos: int, tag: Tag, s: Seq<char>)
    requires
        stands(b, pos, text_bytes(tag, s)),
        b.len() <= usize::MAX,
    ensures
        element_at(b, pos) matches Some((e, next)) && e.context == field_of(tag) && e.value is Utf8 && text_in(b, e) == s
            && next == pos + text_bytes(tag, s).len(),
{
    let u = utf8::encode_utf8(s);
    let code = width_code(u.len());
    let n = width(code);
    let kind = (0x0C + code) as u8;
    lemma_pow256();
    lemma_le_bytes_len(u.len(), n);
    assert(utf8_bytes(tag, u) =~= header(tag, kind) + (le_bytes(u.len(), n) + u));
    lemma_value_back(b, pos, tag, kind, le_bytes(u.len(), n) + u);
    let at = pos + header(tag, kind).len();
    lemma_stands_both(b, at, le_bytes(u.len(), n), u);
    lemma_le_back(b, at, u.len(), n);
    utf8::encode_utf8_valid_utf8(s);
    utf8::encode_utf8_decode_utf8(s);
}

/// Whether walking over `x` leads behind it, however many containers are open around it.
pub open spec fn balanced(b: Seq<u8>, pos: int, x: Seq<u8>) -> bool {
    forall|depth: nat| depth >= 1 ==> #[trigger] close_at(b, pos, depth) == close_at(b, pos + x.len(), depth)
}

/// An element that is no container and no end is balanced.
pub proof fn lemma_balanced_plain(b: Seq<u8>, pos: int, x: Seq<u8>, e: Element)
    requires
        element_at(b, pos) == Some((e, pos + x.len())),
        !(e.value is Container),
        !(e.value is EndOfContainer),
    ensures
        balanced(b, pos, x),
{
}

/// Two balanced parts one after the other are balanced.
pub proof fn lemma_balanced_both(b: Seq<u8>, pos: int, x: Seq<u8>, y: Seq<u8>)
    requires
        balanced(b, pos, x),
        balanced(b, pos + x.len(), y),
    ensures
        balanced(b, pos, x + y),
{
    assert forall|depth: nat| depth >= 1 implies #[trigger] close_at(b, pos, depth) == close_at(
        b,
        pos + (x + y).len(),
        depth,
    ) by {
        assert(close_at(b, pos + x.len(), depth) == close_at(b, pos + x.len() + y.len(), depth));
    }
}

/// The octet that ends a container is read as its end.
proof fn lemma_end_back(b: Seq<u8>, pos: int)
    requires
        stands(b, pos, seq![0x18u8]),
    ensures
        element_at(b, pos) == Some((Element { context: None, value: Value::EndOfContainer }, pos + 1)),
{
    assert(header(Tag::Anonymous, 0x18) + Seq::<u8>::empty() =~= seq![0x18u8]);
    lemma_value_back(b, pos, Tag::Anonymous, 0x18, Seq::empty());
}

/// At its end, an open container has nothing more and is complete.
pub proof fn lemma_scan_end(b: Seq<u8>, pos: int)
    requires
        stands(b, pos, seq![0x18u8]),
    ensures
        scan(b, pos).items == Seq::<Element>::empty(),
        scan(b, pos).complete,
{
    lemma_end_back(b, pos);
}

/// An element of an open container, and then what comes behind it.
pub proof fn lemma_scan_step(b: Seq<u8>, pos: int, e: Element, next: int, after: int)
    requires
        element_at(b, pos) == Some((e, next)),
        !(e.value is EndOfContainer),
        behind(b, e, next) == Some(after),
    ensures
        scan(b, pos).items == seq![e] + scan(b, after).items,
        scan(b, pos).complete == scan(b, after).complete,
{
}

/// The octets of a container of type `kind`.
pub open spec fn container_bytes(tag: Tag, kind: ContainerKind, content: Seq<u8>) -> Seq<u8> {
    match kind {
        ContainerKind::Structure => structure_bytes(tag, content),
        ContainerKind::Array => array_bytes(tag, content),
        ContainerKind::List => list_bytes(tag, content),
    }
}

/// A container whose content is balanced is read back as one, ends where it ends, and is balanced
/// itself.
pub proof fn law_container_round_trip(b: Seq<u8>, pos: int, tag: Tag, kind: ContainerKind, content: Seq<u8>)
    requires
        stands(b, pos, container_bytes(tag, kind, content)),
        b.len() <= usize::MAX,
        balanced(b, pos + header(tag, 0x15).len(), content),
    ensures
        ({
            let at = pos + header(tag, 0x15).len();
            let e = Element { context: field_of(tag), value: Value::Container(kind, at as usize) };
            let end = pos + container_bytes(tag, kind, content).len();
            &&& element_at(b, pos) == Some((e, at))
            &&& e.content() == at
            &&& stands(b, at, content)
            &&& stands(b, at + content.len(), seq![0x18u8])
            &&& behind(b, e, at) == Some(end)
            &&& balanced(b, pos, container_bytes(tag, kind, content))
        }),
{
    let code = match kind {
        ContainerKind::Structure => 0x15u8,
        ContainerKind::Array => 0x16u8,
        ContainerKind::List => 0x17u8,
    };
    let x = container_bytes(tag, kind, content);
    let at = pos + header(tag, 0x15).len();
    assert(x =~= header(tag, code) + (content + seq![0x18u8]));
    lemma_value_back(b, pos, tag, code, content + seq![0x18u8]);
    lemma_stands_both(b, at, content, seq![0x18u8]);
    let last = at + content.len();
    lemma_end_back(b, last);
    assert(close_at(b, last, 1) == close_at(b, last + 1, 0));
    assert(close_at(b, at, 1) == close_at(b, last, 1));
    assert forall|depth: nat| depth >= 1 implies #[trigger] close_at(b, pos, depth) == close_at(b, pos + x.len(), depth) by {
        assert(close_at(b, pos, depth) == close_at(b, at, depth + 1));
        assert(close_at(b, at, depth + 1) == close_at(b, last, depth + 1));
        assert(close_at(b, last, depth + 1) == close_at(b, last + 1, depth));
    }
}

/// The element of a field that may be left out.
pub open spec fn optional_element(field: u8, v: Option<u64>) -> Seq<Element> {
    match v {
        Some(v) => seq![Element { context: Some(field), value: Value::Unsigned(v) }],
        None => Seq::empty(),
    }
}

/// A field that may be left out is read back, and then what comes behind it.
pub proof fn lemma_scan_optional(b: Seq<u8>, pos: int, field: u8, v: Option<u64>)
    requires
        stands(b, pos, optional_bytes(Tag::Context(field), v)),
    ensures
        ({
            let x = optional_bytes(Tag::Context(field), v);
            &&& balanced(b, pos, x)
            &&& scan(b, pos).items == optional_element(field, v) + scan(b, pos + x.len()).items
            &&& scan(b, pos).complete == scan(b, pos + x.len()).complete
        }),
{
    let x = optional_bytes(Tag::Context(field), v);
    match v {
        None => {
            assert(optional_element(field, v) + scan(b, pos).items =~= scan(b, pos).items);
        },
        Some(n) => {
            law_unsigned_round_trip(b, pos, Tag::Context(field), n);
            let e = Element { context: Some(field), value: Value::Unsigned(n) };
            lemma_balanced_plain(b, pos, x, e);
            lemma_scan_step(b, pos, e, pos + x.len(), pos + x.len());
        },
    }
}

/// Numbers as fields, each of which may be left out.
pub open spec fn fields_bytes(fields: Seq<(u8, Option<u64>)>) -> Seq<u8>
    decreases fields.len(),
{
    if fields.len() == 0 {
        Seq::empty()
    } else {
        fields_bytes(fields.drop_last()) + optional_bytes(Tag::Context(fields.last().0), fields.last().1)
    }
}

/// The elements of such fields.
pub open spec fn fields_elements(fields: Seq<(u8, Option<u64>)>) -> Seq<Element>
    decreases fields.len(),
{
    if fields.len() == 0 {
        Seq::empty()
    } else {
        fields_elements(fields.drop_last()) + optional_element(fields.last().0, fields.last().1)
    }
}

/// Fields that were written are read back, and then what comes behind them.
pub proof fn lemma_scan_fields(b: Seq<u8>, pos: int, fields: Seq<(u8, Option<u64>)>)
    requires
        stands(b, pos, fields_bytes(fields)),
    ensures
        balanced(b, pos, fields_bytes(fields)),
        scan(b, pos).items == fields_elements(fields) + scan(b, pos + fields_bytes(fields).len()).items,
        scan(b, pos).complete == scan(b, pos + fields_bytes(fields).len()).complete,
    decreases fields.len(),
{
    if fields.len() == 0 {
        assert(Seq::<Element>::empty() + scan(b, pos).items =~= scan(b, pos).items);
    } else {
        let before = fields.drop_last();
        let x = fields_bytes(before);
        let y = optional_bytes(Tag::Context(fields.last().0), fields.last().1);
        lemma_stands_both(b, pos, x, y);
        lemma_scan_fields(b, pos, before);
        lemma_scan_optional(b, pos + x.len(), fields.last().0, fields.last().1);
        lemma_balanced_both(b, pos, x, y);
        let mid = scan(b, pos + x.len()).items;
        let end = scan(b, pos + (x + y).len()).items;
        assert(fields_elements(before) + (optional_element(fields.last().0, fields.last().1) + end) =~= fields_elements(
            fields,
        ) + end);
    }
}

/// A structure of numbers that was written is read back: it opens, holds its fields, and ends.
pub proof fn lemma_structure_of_fields(b: Seq<u8>, pos: int, tag: Tag, fields: Seq<(u8, Option<u64>)>)
    requires
        stands(b, pos, structure_bytes(tag, fields_bytes(fields))),
        b.len() <= usize::MAX,
    ensures
        ({
            let x = structure_bytes(tag, fields_bytes(fields));
            let at = pos + header(tag, 0x15).len();
            let e = Element { context: field_of(tag), value: Value::Container(ContainerKind::Structure, at as usize) };
            &&& element_at(b, pos) == Some((e, at))
            &&& e.content() == at
            &&& scan(b, at).items == fields_elements(fields)
            &&& scan(b, at).complete
            &&& behind(b, e, at) == Some(pos + x.len())
            &&& balanced(b, pos, x)
        }),
{
    let content = fields_bytes(fields);
    let at = pos + header(tag, 0x15).len();
    assert(structure_bytes(tag, content) =~= header(tag, 0x15) + (content + seq![0x18u8]));
    lemma_stands_both(b, pos, header(tag, 0x15), content + seq![0x18u8]);
    lemma_stands_both(b, at, content, seq![0x18u8]);
    lemma_scan_fields(b, at, fields);
    lemma_scan_end(b, at + content.len());
    law_container_round_trip(b, pos, tag, ContainerKind::Structure, content);
    assert(fields_elements(fields) + Seq::<Element>::empty() =~= fields_elements(fields));
}

/// Whether `x` is one element at `pos`, with its content, and ends where `x` ends.
pub open spec fn whole(b: Seq<u8>, pos: int, x: Seq<u8>) -> bool {
    &&& element_at(b, pos) matches Some((e, next)) && !(e.value is EndOfContainer) && behind(b, e, next) == Some(pos + x.len())
    &&& balanced(b, pos, x)
}

/// The element of each item of a concatenation that stands at `pos`.
pub open spec fn concat_elements<T>(b: Seq<u8>, pos: int, items: Seq<T>, f: spec_fn(T) -> Seq<u8>) -> Seq<Element>
    decreases items.len(),
{
    if items.len() == 0 {
        Seq::empty()
    } else {
        let (e, _) = element_at(b, pos + concat(items.drop_last(), f).len())->Some_0;
        concat_elements(b, pos, items.drop_last(), f).push(e)
    }
}

/// There is an element for each item.
pub proof fn lemma_concat_elements_len<T>(b: Seq<u8>, pos: int, items: Seq<T>, f: spec_fn(T) -> Seq<u8>)
    ensures
        concat_elements(b, pos, items, f).len() == items.len(),
    decreases items.len(),
{
    if items.len() > 0 {
        lemma_concat_elements_len(b, pos, items.drop_last(), f);
    }
}

/// Items that were written one after the other are read back, and then what comes behind them.
pub proof fn lemma_scan_concat<T>(b: Seq<u8>, pos: int, items: Seq<T>, f: spec_fn(T) -> Seq<u8>)
    requires
        stands(b, pos, concat(items, f)),
        forall|i: int, p: int| 0 <= i < items.len() && #[trigger] stands(b, p, f(items[i])) ==> whole(b, p, f(items[i])),
    ensures
        balanced(b, pos, concat(items, f)),
        scan(b, pos).items == concat_elements(b, pos, items, f) + scan(b, pos + concat(items, f).len()).items,
        scan(b, pos).complete == scan(b, pos + concat(items, f).len()).complete,
    decreases items.len(),
{
    if items.len() == 0 {
        assert(Seq::<Element>::empty() + scan(b, pos).items =~= scan(b, pos).items);
    } else {
        let before = items.drop_last();
        let x = concat(before, f);
        let y = f(items.last());
        lemma_stands_both(b, pos, x, y);
        assert forall|i: int, p: int| 0 <= i < before.len() && #[trigger] stands(b, p, f(before[i])) implies whole(
            b,
            p,
            f(before[i]),
        ) by {
            assert(before[i] == items[i]);
        }
        lemma_scan_concat(b, pos, before, f);
        let p = pos + x.len();
        assert(stands(b, p, f(items[items.len() - 1])));
        assert(whole(b, p, y));
        let (e, next) = element_at(b, p)->0;
        lemma_scan_step(b, p, e, next, p + y.len());
        lemma_balanced_both(b, pos, x, y);
        let end = scan(b, pos + (x + y).len()).items;
        assert(concat_elements(b, pos, before, f) + (seq![e] + end) =~= concat_elements(b, pos, items, f) + end);
    }
}

/// An array of items that was written is read back: it opens, holds its items, and ends.
pub proof fn lemma_array_of_items<T>(b: Seq<u8>, pos: int, tag: Tag, items: Seq<T>, f: spec_fn(T) -> Seq<u8>)
    requires
        stands(b, pos, array_bytes(tag, concat(items, f))),
        b.len() <= usize::MAX,
        forall|i: int, p: int| 0 <= i < items.len() && #[trigger] stands(b, p, f(items[i])) ==> whole(b, p, f(items[i])),
    ensures
        ({
            let x = array_bytes(tag, concat(items, f));
            let at = pos + header(tag, 0x15).len();
            let e = Element { context: field_of(tag), value: Value::Container(ContainerKind::Array, at as usize) };
            &&& element_at(b, pos) == Some((e, at))
            &&& e.content() == at
            &&& stands(b, at, concat(items, f))
            &&& scan(b, at).items == concat_elements(b, at, items, f)
            &&& scan(b, at).complete
            &&& behind(b, e, at) == Some(pos + x.len())
            &&& balanced(b, pos, x)
        }),
{
    let content = concat(items, f);
    let at = pos + header(tag, 0x15).len();
    assert(array_bytes(tag, content) =~= header(tag, 0x16) + (content + seq![0x18u8]));
    lemma_stands_both(b, pos, header(tag, 0x16), content + seq![0x18u8]);
    lemma_stands_both(b, at, content, seq![0x18u8]);
    lemma_scan_concat(b, at, items, f);
    lemma_scan_end(b, at + content.len());
    law_container_round_trip(b, pos, tag, ContainerKind::Array, content);
    assert(concat_elements(b, at, items, f) + Seq::<Element>::empty() =~= concat_elements(b, at, items, f));
}

/// Each item of a concatenation stands at its position, and its element is read there.
pub proof fn lemma_concat_element<T>(b: Seq<u8>, pos: int, items: Seq<T>, f: spec_fn(T) -> Seq<u8>, i: int)
    requires
        stands(b, pos, concat(items, f)),
        0 <= i < items.len(),
    ensures
        ({
            let p = pos + concat(items.take(i), f).len();
            let (e, _) = element_at(b, p)->Some_0;
            &&& stands(b, p, f(items[i]))
            &&& concat_elements(b, pos, items, f)[i] == e
        }),
    decreases items.len(),
{
    let before = items.drop_last();
    lemma_stands_both(b, pos, concat(before, f), f(items.last()));
    lemma_concat_elements_len(b, pos, before, f);
    if i < before.len() {
        lemma_concat_element(b, pos, before, f, i);
        assert(before.take(i) =~= items.take(i));
    } else {
        assert(items.take(i) =~= before);
    }
}

/// Octets as they are.
pub open spec fn itself() -> spec_fn(Seq<u8>) -> Seq<u8> {
    |x: Seq<u8>| x
}

/// A structure whose fields were written one after the other is read back: it opens, holds its
/// fields, and ends.
pub proof fn lemma_structure_of_pieces(b: Seq<u8>, pos: int, tag: Tag, pieces: Seq<Seq<u8>>)
    requires
        stands(b, pos, structure_bytes(tag, concat(pieces, itself()))),
        b.len() <= usize::MAX,
        forall|i: int, p: int| 0 <= i < pieces.len() && #[trigger] stands(b, p, pieces[i]) ==> whole(b, p, pieces[i]),
    ensures
        ({
            let x = structure_bytes(tag, concat(pieces, itself()));
            let at = pos + header(tag, 0x15).len();
            let e = Element { context: field_of(tag), value: Value::Container(ContainerKind::Structure, at as usize) };
            &&& element_at(b, pos) == Some((e, at))
            &&& e.content() == at
            &&& stands(b, at, concat(pieces, itself()))
            &&& scan(b, at).items == concat_elements(b, at, pieces, itself())
            &&& scan(b, at).complete
            &&& behind(b, e, at) == Some(pos + x.len())
            &&& balanced(b, pos, x)
        }),
{
    let content = concat(pieces, itself());
    let at = pos + header(tag, 0x15).len();
    assert(structure_bytes(tag, content) =~= header(tag, 0x15) + (content + seq![0x18u8]));
    lemma_stands_both(b, pos, header(tag, 0x15), content + seq![0x18u8]);
    lemma_stands_both(b, at, content, seq![0x18u8]);
    assert forall|i: int, p: int| 0 <= i < pieces.len() && #[trigger] stands(b, p, itself()(pieces[i])) implies whole(
        b,
        p,
        itself()(pieces[i]),
    ) by {
        assert(stands(b, p, pieces[i]));
    }
    lemma_scan_concat(b, at, pieces, itself());
    lemma_scan_end(b, at + content.len());
    law_container_round_trip(b, pos, tag, ContainerKind::Structure, content);
    assert(concat_elements(b, at, pieces, itself()) + Seq::<Element>::empty() =~= concat_elements(b, at, pieces, itself()));
}

/// A number is an element of its own.
pub proof fn lemma_whole_unsigned(b: Seq<u8>, pos: int, tag: Tag, v: u64)
    requires
        stands(b, pos, unsigned_bytes(tag, v)),
    ensures
        whole(b, pos, unsigned_bytes(tag, v)),
        element_at(b, pos) matches Some((e, _)) && e == (Element { context: field_of(tag), value: Value::Unsigned(v) }),
{
    law_unsigned_round_trip(b, pos, tag, v);
    lemma_balanced_plain(b, pos, unsigned_bytes(tag, v), Element { context: field_of(tag), value: Value::Unsigned(v) });
}

/// A number or null is an element of its own.
pub proof fn lemma_whole_nullable(b: Seq<u8>, pos: int, tag: Tag, v: Option<u64>)
    requires
        stands(b, pos, nullable_bytes(tag, v)),
    ensures
        whole(b, pos, nullable_bytes(tag, v)),
        element_at(b, pos) matches Some((e, _)) && e.context == field_of(tag) && e.value == (match v {
            Some(v) => Value::Unsigned(v),
            None => Value::Null,
        }),
{
    match v {
        Some(v) => lemma_whole_unsigned(b, pos, tag, v),
        None => {
            law_null_round_trip(b, pos, tag);
            lemma_balanced_plain(b, pos, null_bytes(tag), Element { context: field_of(tag), value: Value::Null });
        },
    }
}

/// Whether a reader finds one number at `pos`, under a tag.
pub open spec fn shows_number(b: Seq<u8>, pos: int, tag: Tag, v: u64) -> bool {
    element_at(b, pos) matches Some((e, _)) && e.context == field_of(tag) && e.value == Value::Unsigned(v)
}

/// Whether a reader finds a structure at `pos`, under a tag, whose fields are these numbers and no
/// others; a field without a number is not there.
pub open spec fn shows_record(b: Seq<u8>, pos: int, tag: Tag, fields: Seq<(u8, Option<u64>)>) -> bool {
    element_at(b, pos) matches Some((e, _)) && {
        &&& e.context == field_of(tag)
        &&& e.is_structure()
        &&& scan(b, e.content()).items == fields_elements(fields)
        &&& scan(b, e.content()).complete
    }
}

/// Whether a reader finds a list at `pos`, under a tag, of as many structures, one for each of these
/// and in their order.
pub open spec fn shows_records(b: Seq<u8>, pos: int, tag: Tag, list: Seq<Seq<(u8, Option<u64>)>>) -> bool {
    element_at(b, pos) matches Some((e, _)) && {
        let s = scan(b, e.content());
        &&& e.context == field_of(tag)
        &&& e.is_array()
        &&& s.complete
        &&& s.items.len() == list.len()
        &&& forall|i: int|
            0 <= i < list.len() ==> {
                let x = #[trigger] s.items[i];
                &&& x.is_structure()
                &&& scan(b, x.content()).items == fields_elements(list[i])
                &&& scan(b, x.content()).complete
            }
    }
}

/// A structure of numbers as an item of a list.
pub open spec fn record_bytes() -> spec_fn(Seq<(u8, Option<u64>)>) -> Seq<u8> {
    |fields: Seq<(u8, Option<u64>)>| structure_bytes(Tag::Anonymous, fields_bytes(fields))
}

/// A structure of numbers shows its numbers.
pub proof fn lemma_shows_record(b: Seq<u8>, pos: int, tag: Tag, fields: Seq<(u8, Option<u64>)>)
    requires
        stands(b, pos, structure_bytes(tag, fields_bytes(fields))),
        b.len() <= usize::MAX,
    ensures
        shows_record(b, pos, tag, fields),
{
    lemma_structure_of_fields(b, pos, tag, fields);
}

/// A list of structures of numbers shows each of them.
pub proof fn lemma_shows_records(b: Seq<u8>, pos: int, tag: Tag, list: Seq<Seq<(u8, Option<u64>)>>)
    requires
        stands(b, pos, array_bytes(tag, concat(list, record_bytes()))),
        b.len() <= usize::MAX,
    ensures
        shows_records(b, pos, tag, list),
{
    assert forall|i: int, p: int| 0 <= i < list.len() && #[trigger] stands(b, p, record_bytes()(list[i])) implies whole(
        b,
        p,
        record_bytes()(list[i]),
    ) by {
        lemma_structure_of_fields(b, p, Tag::Anonymous, list[i]);
    }
    lemma_array_of_items(b, pos, tag, list, record_bytes());
    let at = pos + header(tag, 0x15).len();
    lemma_concat_elements_len(b, at, list, record_bytes());
    assert forall|i: int| 0 <= i < list.len() implies ({
        let x = #[trigger] scan(b, at).items[i];
        &&& x.is_structure()
        &&& scan(b, x.content()).items == fields_elements(list[i])
        &&& scan(b, x.content()).complete
    }) by {
        lemma_concat_element(b, at, list, record_bytes(), i);
        let p = at + concat(list.take(i), record_bytes()).len();
        lemma_structure_of_fields(b, p, Tag::Anonymous, list[i]);
    }
}

/// What a whole answer is stands at its start.
pub proof fn lemma_stands_whole(b: Seq<u8>)
    ensures
        stands(b, 0, b),
{
    assert(b.subrange(0, b.len() as int) =~= b);
}

/// An answer that is one number shows it.
pub proof fn lemma_shows_number(tag: Tag, v: u64)
    ensures
        shows_number(unsigned_bytes(tag, v), 0, tag, v),
{
    lemma_stands_whole(unsigned_bytes(tag, v));
    law_unsigned_round_trip(unsigned_bytes(tag, v), 0, tag, v);
}

/// The encoding of one field.
pub proof fn lemma_fields_of_one(tag: u8, v: u64)
    ensures
        fields_bytes(seq![(tag, Some(v))]) == unsigned_bytes(Tag::Context(tag), v),
{
    let f = seq![(tag, Some(v))];
    reveal_with_fuel(fields_bytes, 2);
    assert(f.drop_last() =~= Seq::<(u8, Option<u64>)>::empty());
    assert(f.last() == (tag, Some(v)));
    assert(fields_bytes(f) =~= unsigned_bytes(Tag::Context(tag), v));
}

/// The encoding of fields, one more at the end.
pub proof fn lemma_fields_push(fields: Seq<(u8, Option<u64>)>, f: (u8, Option<u64>))
    ensures
        fields_bytes(fields.push(f)) == fields_bytes(fields) + optional_bytes(Tag::Context(f.0), f.1),
{
    assert(fields.push(f).drop_last() =~= fields);
}

/// Items that are encoded alike are encoded alike one after the other.
pub proof fn lemma_concat_map<A, B>(items: Seq<A>, f: spec_fn(A) -> Seq<u8>, g: spec_fn(A) -> B, h: spec_fn(B) -> Seq<u8>)
    requires
        forall|x: A| f(x) == #[trigger] h(g(x)),
    ensures
        concat(items, f) == concat(items.map_values(g), h),
    decreases items.len(),
{
    if items.len() > 0 {
        lemma_concat_map(items.drop_last(), f, g, h);
        assert(items.map_values(g).drop_last() =~= items.drop_last().map_values(g));
        assert(items.map_values(g).last() == g(items.last()));
    }
}

/// A signed number is an element of its own.
pub proof fn lemma_whole_signed(b: Seq<u8>, pos: int, tag: Tag, v: i64)
    requires
        stands(b, pos, signed_bytes(tag, v)),
    ensures
        whole(b, pos, signed_bytes(tag, v)),
        element_at(b, pos) matches Some((e, _)) && e == (Element { context: field_of(tag), value: Value::Signed(v) }),
{
    law_signed_round_trip(b, pos, tag, v);
    lemma_balanced_plain(b, pos, signed_bytes(tag, v), Element { context: field_of(tag), value: Value::Signed(v) });
}

/// A boolean is an element of its own.
pub proof fn lemma_whole_bool(b: Seq<u8>, pos: int, tag: Tag, v: bool)
    requires
        stands(b, pos, bool_bytes(tag, v)),
    ensures
        whole(b, pos, bool_bytes(tag, v)),
        element_at(b, pos) matches Some((e, _)) && e == (Element { context: field_of(tag), value: Value::Bool(v) }),
{
    law_bool_round_trip(b, pos, tag, v);
    lemma_balanced_plain(b, pos, bool_bytes(tag, v), Element { context: field_of(tag), value: Value::Bool(v) });
}

/// A structure whose fields are each one known element is read back as those elements.
pub proof fn lemma_structure_of_known(b: Seq<u8>, pos: int, tag: Tag, pieces: Seq<Seq<u8>>, elements: Seq<Element>)
    requires
        stands(b, pos, structure_bytes(tag, concat(pieces, itself()))),
        b.len() <= usize::MAX,
        elements.len() == pieces.len(),
        forall|i: int, p: int|
            0 <= i < pieces.len() && #[trigger] stands(b, p, pieces[i]) ==> whole(b, p, pieces[i]) && (element_at(b, p) matches Some(
                (e, _),
            ) && e == elements[i]),
    ensures
        ({
            let x = structure_bytes(tag, concat(pieces, itself()));
            let at = pos + header(tag, 0x15).len();
            let e = Element { context: field_of(tag), value: Value::Container(ContainerKind::Structure, at as usize) };
            &&& element_at(b, pos) == Some((e, at))
            &&& e.content() == at
            &&& scan(b, at).items == elements
            &&& scan(b, at).complete
            &&& whole(b, pos, x)
        }),
{
    lemma_structure_of_pieces(b, pos, tag, pieces);
    let at = pos + header(tag, 0x15).len();
    lemma_concat_elements_len(b, at, pieces, itself());
    assert forall|i: int| 0 <= i < pieces.len() implies concat_elements(b, at, pieces, itself())[i] == elements[i] by {
        lemma_concat_element(b, at, pieces, itself(), i);
        let p = at + concat(pieces.take(i), itself()).len();
        assert(stands(b, p, pieces[i]));
    }
    assert(scan(b, at).items =~= elements);
}

} // verus!
