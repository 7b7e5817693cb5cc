//! Commands whose fields are read one after the other, each checked as it comes.

use vstd::prelude::*;

use crate::im::Status;
use crate::tlv;
use crate::tlv::{ContainerKind, Element, Items, Value};

verus! {

/// What a field has to hold.
#[derive(Debug, Clone, Copy, PartialEq, Eq, Structural)]
pub enum Want {
    /// An unsigned integer up to the given one.
    Unsigned(u64),
    /// An octet string whose length lies between the two given ones.
    Octets(usize, usize),
    /// A text.
    Text,
}

/// A field: its tag, and what it has to hold.
#[derive(Debug, Clone, Copy, PartialEq, Eq, Structural)]
pub struct Slot(pub u8, pub Want);

/// What is made of fields that go wrong.
#[derive(Debug, Clone, Copy, PartialEq, Eq, Structural)]
pub struct Manner {
    /// The answer to data that is no structure, or whose end is missing.
    pub malformed: Status,
    /// The answer to a field of another type.
    pub wrong_type: Status,
    /// Whether a field may come once only; otherwise the last one counts.
    pub once: bool,
}

/// Malformed data is an invalid action, a wrong type breaks a constraint, and the last field counts.
pub open spec fn lenient() -> Manner {
    Manner { malformed: Status::InvalidAction, wrong_type: Status::ConstraintError, once: false }
}

/// Whatever is wrong with the form is an invalid command, a field that comes twice too.
pub open spec fn strict() -> Manner {
    Manner { malformed: Status::InvalidCommand, wrong_type: Status::InvalidCommand, once: true }
}

impl Manner {
    /// Malformed data is an invalid action, a wrong type breaks a constraint, and the last field
    /// counts.
    pub fn lenient() -> (m: Self)
        ensures
            m == lenient(),
    {
        Manner { malformed: Status::InvalidAction, wrong_type: Status::ConstraintError, once: false }
    }

    /// Whatever is wrong with the form is an invalid command, a field that comes twice too.
    pub fn strict() -> (m: Self)
        ensures
            m == strict(),
    {
        Manner { malformed: Status::InvalidCommand, wrong_type: Status::InvalidCommand, once: true }
    }
}

/// What is wrong with a value, where something is.
pub open spec fn verdict(want: Want, value: Value, wrong_type: Status) -> Option<Status> {
    match want {
        Want::Unsigned(max) => match value {
            Value::Unsigned(v) => if v <= max { None } else { Some(Status::ConstraintError) },
            _ => Some(wrong_type),
        },
        Want::Octets(lo, hi) => match value {
            Value::Octets(start, end) => if lo <= end - start <= hi { None } else { Some(Status::ConstraintError) },
            _ => Some(wrong_type),
        },
        Want::Text => if value is Utf8 { None } else { Some(wrong_type) },
    }
}

/// What the field of an element has to hold, from slot `i` on; `None` where it is not known.
pub open spec fn wanted(slots: Seq<Slot>, e: Element, i: int) -> Option<Want>
    decreases slots.len() - i,
{
    if i < 0 || i >= slots.len() {
        None
    } else if e.context == Some(slots[i].0) {
        Some(slots[i].1)
    } else {
        wanted(slots, e, i + 1)
    }
}

/// The last of the first `n` elements that has a tag.
pub open spec fn latest(items: Seq<Element>, tag: u8, n: int) -> Option<Element>
    decreases n,
{
    if n <= 0 {
        None
    } else if items[n - 1].context == Some(tag) {
        Some(items[n - 1])
    } else {
        latest(items, tag, n - 1)
    }
}

/// What is wrong with element `i`, where something is: its value, and then that it came before.
pub open spec fn fault(items: Seq<Element>, i: int, slots: Seq<Slot>, m: Manner) -> Option<Status> {
    match wanted(slots, items[i], 0) {
        None => None,
        Some(want) => match verdict(want, items[i].value, m.wrong_type) {
            Some(status) => Some(status),
            None => if m.once && (items[i].context matches Some(tag) && latest(items, tag, i) is Some) {
                Some(m.malformed)
            } else {
                None
            },
        },
    }
}

/// What is wrong with the first wrong element from `i` on.
pub open spec fn first_fault(items: Seq<Element>, i: int, slots: Seq<Slot>, m: Manner) -> Option<Status>
    decreases items.len() - i,
{
    if i < 0 || i >= items.len() {
        None
    } else {
        match fault(items, i, slots, m) {
            Some(status) => Some(status),
            None => first_fault(items, i + 1, slots, m),
        }
    }
}

/// The elements of a command, or what is wrong with it.
pub open spec fn walked(b: Seq<u8>, slots: Seq<Slot>, m: Manner) -> Result<Seq<Element>, Status> {
    match tlv::element_at(b, 0) {
        None => Err(m.malformed),
        Some((e, _)) => if !e.is_structure() {
            Err(m.malformed)
        } else {
            let s = tlv::scan(b, e.content());
            match first_fault(s.items, 0, slots, m) {
                Some(status) => Err(status),
                None => if s.complete {
                    Ok(s.items)
                } else {
                    Err(m.malformed)
                },
            }
        },
    }
}

/// The number that a field holds.
pub open spec fn num(items: Seq<Element>, tag: u8) -> Option<u64> {
    match latest(items, tag, items.len() as int) {
        Some(e) => match e.value {
            Value::Unsigned(v) => Some(v),
            _ => None,
        },
        None => None,
    }
}

/// The octets that a field holds.
pub open spec fn octets(b: Seq<u8>, items: Seq<Element>, tag: u8) -> Option<Seq<u8>> {
    match latest(items, tag, items.len() as int) {
        Some(e) => if e.value is Octets { Some(tlv::octets_in(b, e)) } else { None },
        None => None,
    }
}

/// The text that a field holds.
pub open spec fn text(b: Seq<u8>, items: Seq<Element>, tag: u8) -> Option<Seq<char>> {
    match latest(items, tag, items.len() as int) {
        Some(e) => if e.value is Utf8 { Some(tlv::text_in(b, e)) } else { None },
        None => None,
    }
}

/// The fields of a command.
pub struct Walked<'a> {
    data: &'a [u8],
    items: Vec<Element>,
}

impl<'a> Walked<'a> {
    /// The data.
    pub closed spec fn data(&self) -> Seq<u8> {
        self.data@
    }

    /// The elements, in order.
    pub closed spec fn items(&self) -> Seq<Element> {
        self.items@
    }

    /// Whether what the elements point to is there.
    pub closed spec fn wf(&self) -> bool {
        forall|i: int| 0 <= i < self.items@.len() ==> tlv::inside(self.data@, #[trigger] self.items@[i])
    }

    fn latest(&self, tag: u8) -> (e: Option<Element>)
        requires
            self.wf(),
        ensures
            e == latest(self.items(), tag, self.items().len() as int),
            e matches Some(e) ==> tlv::inside(self.data(), e),
    {
        let mut n: usize = self.items.len();
        while n > 0
            invariant
                n <= self.items@.len(),
                self.wf(),
                latest(self.items@, tag, self.items@.len() as int) == latest(self.items@, tag, n as int),
            decreases n,
        {
            n = n - 1;
            match self.items[n].context {
                Some(t) => if t == tag {
                    return Some(self.items[n]);
                },
                None => {},
            }
        }
        None
    }

    /// The number that a field holds.
    pub fn num(&self, tag: u8) -> (v: Option<u64>)
        requires
            self.wf(),
        ensures
            v == num(self.items(), tag),
    {
        match self.latest(tag) {
            Some(e) => match e.value {
                Value::Unsigned(v) => Some(v),
                _ => None,
            },
            None => None,
        }
    }

    /// The octets that a field holds.
    pub fn octets(&self, tag: u8) -> (s: Option<&'a [u8]>)
        requires
            self.wf(),
        ensures
            (s is Some) == (octets(self.data(), self.items(), tag) is Some),
            s matches Some(s) ==> octets(self.data(), self.items(), tag) == Some(s@),
    {
        match self.latest(tag) {
            Some(e) => tlv::octets_at(self.data, &e),
            None => None,
        }
    }

    /// The text that a field holds.
    pub fn text(&self, tag: u8) -> (s: Option<&'a str>)
        requires
            self.wf(),
        ensures
            (s is Some) == (text(self.data(), self.items(), tag) is Some),
            s matches Some(s) ==> text(self.data(), self.items(), tag) == Some(s@),
    {
        match self.latest(tag) {
            Some(e) => tlv::text_at(self.data, &e),
            None => None,
        }
    }
}

fn judge(want: Want, value: Value, wrong_type: Status) -> (r: Option<Status>)
    requires
        value matches Value::Octets(start, end) ==> start <= end,
    ensures
        r == verdict(want, value, wrong_type),
{
    match want {
        Want::Unsigned(max) => match value {
            Value::Unsigned(v) => if v <= max { None } else { Some(Status::ConstraintError) },
            _ => Some(wrong_type),
        },
        Want::Octets(lo, hi) => match value {
            Value::Octets(start, end) => {
                let n: usize = end - start;
                if lo <= n && n <= hi {
                    None
                } else {
                    Some(Status::ConstraintError)
                }
            },
            _ => Some(wrong_type),
        },
        Want::Text => match value {
            Value::Utf8(_, _) => None,
            _ => Some(wrong_type),
        },
    }
}

fn want_of(slots: &Vec<Slot>, e: &Element) -> (w: Option<Want>)
    ensures
        w == wanted(slots@, *e, 0),
{
    let tag: u8 = match e.context {
        None => {
            proof {
                lemma_untagged(slots@, *e, 0);
            }
            return None;
        },
        Some(tag) => tag,
    };
    let mut i: usize = 0;
    while i < slots.len()
        invariant
            i <= slots@.len(),
            e.context == Some(tag),
            wanted(slots@, *e, 0) == wanted(slots@, *e, i as int),
        decreases slots.len() - i,
    {
        if slots[i].0 == tag {
            return Some(slots[i].1);
        }
        i = i + 1;
    }
    None
}

proof fn lemma_untagged(slots: Seq<Slot>, e: Element, i: int)
    requires
        e.context is None,
    ensures
        wanted(slots, e, i) is None,
    decreases slots.len() - i,
{
    if 0 <= i < slots.len() {
        lemma_untagged(slots, e, i + 1);
    }
}

fn came_before(items: &Vec<Element>, tag: u8, n: usize) -> (r: bool)
    requires
        n <= items@.len(),
    ensures
        r == (latest(items@, tag, n as int) is Some),
{
    let mut k: usize = n;
    while k > 0
        invariant
            k <= n <= items@.len(),
            latest(items@, tag, n as int) == latest(items@, tag, k as int),
        decreases k,
    {
        k = k - 1;
        match items[k].context {
            Some(t) => if t == tag {
                return true;
            },
            None => {},
        }
    }
    false
}

fn find_fault(data: &[u8], items: &Vec<Element>, slots: &Vec<Slot>, m: Manner) -> (r: Option<Status>)
    requires
        forall|i: int| 0 <= i < items@.len() ==> tlv::inside(data@, #[trigger] items@[i]),
    ensures
        r == first_fault(items@, 0, slots@, m),
{
    let mut i: usize = 0;
    while i < items.len()
        invariant
            i <= items@.len(),
            forall|i: int| 0 <= i < items@.len() ==> tlv::inside(data@, #[trigger] items@[i]),
            first_fault(items@, 0, slots@, m) == first_fault(items@, i as int, slots@, m),
        decreases items.len() - i,
    {
        let e: Element = items[i];
        proof {
            assert(tlv::inside(data@, items@[i as int]));
        }
        if let Some(want) = want_of(slots, &e) {
            if let Some(status) = judge(want, e.value, m.wrong_type) {
                return Some(status);
            }
            if m.once {
                if let Some(tag) = e.context {
                    if came_before(items, tag, i) {
                        return Some(m.malformed);
                    }
                }
            }
        }
        i = i + 1;
    }
    None
}

/// Reads the fields of a command.
pub fn walk<'a>(data: &'a [u8], slots: &Vec<Slot>, m: Manner) -> (r: Result<Walked<'a>, Status>)
    ensures
        match r {
            Ok(w) => walked(data@, slots@, m) == Ok::<Seq<Element>, Status>(w.items()) && w.data() == data@ && w.wf(),
            Err(status) => walked(data@, slots@, m) == Err::<Seq<Element>, Status>(status),
        },
{
    let start: usize = match tlv::read_element(data, 0) {
        None => return Err(m.malformed),
        Some((e, _)) => match e.value {
            Value::Container(ContainerKind::Structure, start) => start,
            _ => return Err(m.malformed),
        },
    };
    let read: Items = tlv::read_items(data, start);
    if let Some(status) = find_fault(data, &read.items, slots, m) {
        return Err(status);
    }
    if !read.complete {
        return Err(m.malformed);
    }
    Ok(Walked { data, items: read.items })
}

/// Where nothing is wrong, nothing is wrong with any element.
proof fn lemma_no_fault(items: Seq<Element>, slots: Seq<Slot>, m: Manner, i: int, k: int)
    requires
        0 <= i <= k < items.len(),
        first_fault(items, i, slots, m) is None,
    ensures
        fault(items, k, slots, m) is None,
    decreases k - i,
{
    if i < k {
        lemma_no_fault(items, slots, m, i + 1, k);
    }
}

proof fn lemma_latest(items: Seq<Element>, slots: Seq<Slot>, m: Manner, tag: u8, want: Want, k: int)
    requires
        0 <= k <= items.len(),
        first_fault(items, 0, slots, m) is None,
        forall|e: Element| e.context == Some(tag) ==> #[trigger] wanted(slots, e, 0) == Some(want),
    ensures
        latest(items, tag, k) matches Some(e) ==> verdict(want, e.value, m.wrong_type) is None && items.contains(e),
    decreases k,
{
    if k > 0 {
        lemma_latest(items, slots, m, tag, want, k - 1);
        lemma_no_fault(items, slots, m, 0, k - 1);
        assert(items.contains(items[k - 1]));
        assert(items[k - 1].context == Some(tag) ==> wanted(slots, items[k - 1], 0) == Some(want));
    }
}

/// The octets of a field of a fixed length have that length.
pub proof fn lemma_octets_length(b: Seq<u8>, slots: Seq<Slot>, m: Manner, tag: u8, n: usize)
    requires
        b.len() <= usize::MAX,
        forall|e: Element| e.context == Some(tag) ==> #[trigger] wanted(slots, e, 0) == Some(Want::Octets(n, n)),
    ensures
        walked(b, slots, m) matches Ok(items) ==> (octets(b, items, tag) matches Some(s) ==> s.len() == n),
{
    if let Ok(items) = walked(b, slots, m) {
        lemma_latest(items, slots, m, tag, Want::Octets(n, n), items.len() as int);
        if let Some((e, _)) = tlv::element_at(b, 0) {
            tlv::lemma_scan_inside(b, e.content());
        }
        if let Some(e) = latest(items, tag, items.len() as int) {
            let i = choose|i: int| 0 <= i < items.len() && items[i] == e;
            assert(tlv::inside(b, items[i]));
        }
    }
}

proof fn lemma_wanted(slots: Seq<Slot>, e: Element, i: int)
    requires
        0 <= i,
        forall|a: int, c: int| 0 <= a < c < slots.len() ==> (#[trigger] slots[a]).0 != (#[trigger] slots[c]).0,
    ensures
        forall|k: int| i <= k < slots.len() && e.context == Some((#[trigger] slots[k]).0) ==> wanted(slots, e, i) == Some(slots[k].1),
        (forall|k: int| i <= k < slots.len() ==> e.context != Some((#[trigger] slots[k]).0)) ==> wanted(slots, e, i) is None,
    decreases slots.len() - i,
{
    if i < slots.len() {
        lemma_wanted(slots, e, i + 1);
    }
}

proof fn lemma_faultless(items: Seq<Element>, i: int, slots: Seq<Slot>, m: Manner)
    requires
        0 <= i,
    ensures
        (first_fault(items, i, slots, m) is None) == forall|k: int|
            i <= k < items.len() ==> (#[trigger] fault(items, k, slots, m)) is None,
    decreases items.len() - i,
{
    if i < items.len() {
        lemma_faultless(items, i + 1, slots, m);
    }
}

proof fn lemma_last(items: Seq<Element>, tag: u8, n: int)
    requires
        0 <= n <= items.len(),
    ensures
        match latest(items, tag, n) {
            Some(e) => exists|i: int|
                0 <= i < n && #[trigger] items[i] == e && e.context == Some(tag) && forall|j: int|
                    i < j < n ==> (#[trigger] items[j]).context != Some(tag),
            None => forall|j: int| 0 <= j < n ==> (#[trigger] items[j]).context != Some(tag),
        },
    decreases n,
{
    if n > 0 {
        lemma_last(items, tag, n - 1);
        if items[n - 1].context == Some(tag) {
            assert(items[n - 1] == latest(items, tag, n)->Some_0);
        } else if let Some(e) = latest(items, tag, n - 1) {
            let i = choose|i: int|
                0 <= i < n - 1 && #[trigger] items[i] == e && e.context == Some(tag) && forall|j: int|
                    i < j < n - 1 ==> (#[trigger] items[j]).context != Some(tag);
            assert(items[i] == e);
        }
    }
}

/// Whether a value is what a field has to hold.
pub open spec fn suits(want: Want, value: Value) -> bool {
    match (want, value) {
        (Want::Unsigned(max), Value::Unsigned(v)) => v <= max,
        (Want::Octets(lo, hi), Value::Octets(start, end)) => lo <= end - start <= hi,
        (Want::Text, Value::Utf8(_, _)) => true,
        _ => false,
    }
}

/// The fields of a command are walked exactly where they are a structure that is all there, in which each field that is known
/// holds what it has to, and comes once where it may come only once; what is not known is passed over.
pub proof fn law_fields_are_walked_where_they_fit(b: Seq<u8>, slots: Seq<Slot>, m: Manner)
    requires
        forall|a: int, c: int| 0 <= a < c < slots.len() ==> (#[trigger] slots[a]).0 != (#[trigger] slots[c]).0,
    ensures
        (walked(b, slots, m) is Ok) == (tlv::element_at(b, 0) matches Some((e, _)) && e.is_structure() && {
            let s = tlv::scan(b, e.content());
            &&& s.complete
            &&& forall|k: int, i: int|
                0 <= k < slots.len() && 0 <= i < s.items.len() && (#[trigger] s.items[i]).context == Some((#[trigger] slots[k]).0)
                    ==> suits(slots[k].1, s.items[i].value)
            &&& m.once ==> forall|k: int, i: int, j: int|
                0 <= k < slots.len() && 0 <= i < j < s.items.len() && (#[trigger] s.items[i]).context == Some((#[trigger] slots[k]).0)
                    ==> (#[trigger] s.items[j]).context != Some(slots[k].0)
        }),
        walked(b, slots, m) matches Ok(items) ==> (tlv::element_at(b, 0) matches Some((e, _)) && items == tlv::scan(b, e.content()).items),
{
    if let Some((e, _)) = tlv::element_at(b, 0) {
        let items = tlv::scan(b, e.content()).items;
        lemma_faultless(items, 0, slots, m);
        assert forall|k: int, i: int|
            0 <= k < slots.len() && 0 <= i < items.len() && (#[trigger] items[i]).context == Some((#[trigger] slots[k]).0) implies (fault(
            items,
            i,
            slots,
            m,
        ) is None) == (suits(slots[k].1, items[i].value) && (m.once ==> forall|j: int|
            0 <= j < i ==> (#[trigger] items[j]).context != Some(slots[k].0))) by {
            lemma_wanted(slots, items[i], 0);
            lemma_last(items, slots[k].0, i);
        }
        assert forall|i: int| 0 <= i < items.len() && (forall|k: int| 0 <= k < slots.len() ==> items[i].context != Some((#[trigger] slots[k]).0)) implies (
        #[trigger] fault(items, i, slots, m)) is None by {
            lemma_wanted(slots, items[i], 0);
        }
        if e.is_structure() {
            let fine = forall|k: int, i: int|
                0 <= k < slots.len() && 0 <= i < items.len() && (#[trigger] items[i]).context == Some((#[trigger] slots[k]).0) ==> suits(
                    slots[k].1,
                    items[i].value,
                );
            let once = forall|k: int, i: int, j: int|
                0 <= k < slots.len() && 0 <= i < j < items.len() && (#[trigger] items[i]).context == Some((#[trigger] slots[k]).0)
                    ==> (#[trigger] items[j]).context != Some(slots[k].0);
            if fine && (m.once ==> once) {
                assert forall|i: int| 0 <= i < items.len() implies (#[trigger] fault(items, i, slots, m)) is None by {
                    if exists|k: int| 0 <= k < slots.len() && items[i].context == Some((#[trigger] slots[k]).0) {
                        let k = choose|k: int| 0 <= k < slots.len() && items[i].context == Some((#[trigger] slots[k]).0);
                        if m.once {
                            assert forall|j: int| 0 <= j < i implies (#[trigger] items[j]).context != Some(slots[k].0) by {
                                if items[j].context == Some(slots[k].0) {
                                    assert(items[i].context != Some(slots[k].0));
                                }
                            }
                        }
                    }
                }
            } else if !fine {
                let (k, i) = choose|k: int, i: int|
                    0 <= k < slots.len() && 0 <= i < items.len() && (#[trigger] items[i]).context == Some((#[trigger] slots[k]).0) && !suits(
                        slots[k].1,
                        items[i].value,
                    );
                assert(!(fault(items, i, slots, m) is None));
            } else {
                let (k, i, j) = choose|k: int, i: int, j: int|
                    0 <= k < slots.len() && 0 <= i < j < items.len() && (#[trigger] items[i]).context == Some((#[trigger] slots[k]).0) && (
                    #[trigger] items[j]).context == Some(slots[k].0);
                assert(!(fault(items, j, slots, m) is None));
            }
        }
    }
}

/// Of a field that comes more than once the last counts, and one that does not come gives nothing.
pub proof fn law_the_last_field_counts(b: Seq<u8>, items: Seq<Element>, tag: u8)
    ensures
        forall|i: int|
            0 <= i < items.len() && (#[trigger] items[i]).context == Some(tag) && (forall|j: int|
                i < j < items.len() ==> (#[trigger] items[j]).context != Some(tag)) ==> {
                &&& num(items, tag) == (match items[i].value {
                    Value::Unsigned(v) => Some(v),
                    _ => None,
                })
                &&& octets(b, items, tag) == (if items[i].value is Octets { Some(tlv::octets_in(b, items[i])) } else { None })
                &&& text(b, items, tag) == (if items[i].value is Utf8 { Some(tlv::text_in(b, items[i])) } else { None })
            },
        (forall|j: int| 0 <= j < items.len() ==> (#[trigger] items[j]).context != Some(tag)) ==> num(items, tag) is None && octets(
            b,
            items,
            tag,
        ) is None && text(b, items, tag) is None,
{
    lemma_last(items, tag, items.len() as int);
}

/// What is made of fields that go wrong: leniently, malformed data is an invalid action and a wrong type breaks a constraint;
/// strictly, both are an invalid command, and so is a field that comes twice.
pub proof fn law_what_goes_wrong_is_told(b: Seq<u8>, slots: Seq<Slot>)
    requires
        match tlv::element_at(b, 0) {
            None => true,
            Some((e, _)) => !e.is_structure(),
        },
    ensures
        walked(b, slots, lenient()) == Err::<Seq<Element>, Status>(Status::InvalidAction),
        walked(b, slots, strict()) == Err::<Seq<Element>, Status>(Status::InvalidCommand),
        !lenient().once && lenient().wrong_type is ConstraintError,
        strict().once && strict().wrong_type is InvalidCommand,
{
}

} // verus!
