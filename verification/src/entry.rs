//! Raw entry blocks: what the scanner hands to the parser.

use crate::text::{is_word, views, lemma_views_push, word};
use vstd::prelude::*;
use vstd::slice::*;

verus! {

/// One `key: value` pair of a block, as it stood in the dump.
#[derive(Clone, Debug, PartialEq, Eq)]
pub struct Attribute {
    pub key: Vec<u8>,
    pub value: Vec<u8>,
}

/// The mathematical content of an [`Attribute`].
pub struct AttributeView {
    pub key: Seq<u8>,
    pub value: Seq<u8>,
}

impl View for Attribute {
    type V = AttributeView;

    open spec fn view(&self) -> AttributeView {
        AttributeView { key: self.key@, value: self.value@ }
    }
}

/// The contents of a vector of attributes.
pub open spec fn attribute_views(v: Seq<Attribute>) -> Seq<AttributeView> {
    Seq::new(v.len(), |i: int| v[i]@)
}

/// A blank-line-delimited block of a dump: its attributes in the order in
/// which they appeared, and the offset at which the block started.
#[derive(Clone, Debug, PartialEq, Eq)]
pub struct RawEntry {
    pub offset: u64,
    pub attributes: Vec<Attribute>,
}

/// The mathematical content of a [`RawEntry`].
pub struct RawEntryView {
    pub offset: u64,
    pub attributes: Seq<AttributeView>,
}

impl View for RawEntry {
    type V = RawEntryView;

    open spec fn view(&self) -> RawEntryView {
        RawEntryView { offset: self.offset, attributes: attribute_views(self.attributes@) }
    }
}

/// The contents of a vector of entries.
pub open spec fn entry_views(v: Seq<RawEntry>) -> Seq<RawEntryView> {
    Seq::new(v.len(), |i: int| v[i]@)
}

/// The content of an entry that may be absent.
pub open spec fn optional_entry_view(e: Option<RawEntry>) -> Option<RawEntryView> {
    match e {
        Some(e) => Some(e@),
        None => None,
    }
}

/// Pushing one more attribute appends its content to [`attribute_views`].
pub proof fn lemma_attribute_views_push(v: Seq<Attribute>, a: Attribute)
    ensures
        attribute_views(v.push(a)) == attribute_views(v).push(a@),
{
    assert(attribute_views(v.push(a)) =~= attribute_views(v).push(a@));
}

/// Pushing one more entry appends its content to [`entry_views`].
pub proof fn lemma_entry_views_push(v: Seq<RawEntry>, e: RawEntry)
    ensures
        entry_views(v.push(e)) == entry_views(v).push(e@),
{
    assert(entry_views(v.push(e)) =~= entry_views(v).push(e@));
}

/// The values of the attributes with the given key, in the order in which
/// they appear.
pub open spec fn values_of(attributes: Seq<AttributeView>, key: Seq<u8>) -> Seq<Seq<u8>>
    decreases attributes.len(),
{
    if attributes.len() == 0 {
        Seq::empty()
    } else {
        let rest = values_of(attributes.drop_last(), key);
        if attributes.last().key == key {
            rest.push(attributes.last().value)
        } else {
            rest
        }
    }
}

/// The first value of the attribute with the given key, if there is one.
pub open spec fn first_value(attributes: Seq<AttributeView>, key: Seq<u8>) -> Option<Seq<u8>> {
    if values_of(attributes, key).len() > 0 {
        Some(values_of(attributes, key)[0])
    } else {
        None
    }
}

/// A text that may be absent, as bytes.
pub open spec fn optional_text(t: Option<Vec<u8>>) -> Option<Seq<u8>> {
    match t {
        Some(v) => Some(v@),
        None => None,
    }
}

/// The values of a key are values of attributes that carry that key.
pub proof fn lemma_values_of(attributes: Seq<AttributeView>, key: Seq<u8>)
    ensures
        values_of(attributes, key).len() <= attributes.len(),
        values_of(attributes, key).len() > 0 <==> exists|i: int|
            0 <= i < attributes.len() && (#[trigger] attributes[i]).key == key,
    decreases attributes.len(),
{
    if attributes.len() > 0 {
        let rest = attributes.drop_last();
        lemma_values_of(rest, key);
        if values_of(attributes, key).len() > 0 {
            if attributes.last().key == key {
                assert(attributes[attributes.len() - 1].key == key);
            } else {
                let i = choose|i: int| 0 <= i < rest.len() && (#[trigger] rest[i]).key == key;
                assert(attributes[i].key == key);
            }
        } else {
            assert forall|i: int| 0 <= i < attributes.len() implies (#[trigger] attributes[i]).key
                != key by {
                if i < rest.len() {
                    assert(rest[i].key != key);
                }
            }
        }
    }
}

impl RawEntry {
    /// The values of the attributes whose key is the word `key`, in order.
    pub fn values(&self, key: &str) -> (r: Vec<Vec<u8>>)
        ensures
            views(r@) == values_of(self@.attributes, word(key@)),
    {
        let mut out: Vec<Vec<u8>> = Vec::new();
        let mut i: usize = 0;
        assert(attribute_views(self.attributes@).subrange(0, 0) =~= Seq::empty());
        assert(views(out@) =~= Seq::empty());
        while i < self.attributes.len()
            invariant
                i <= self.attributes@.len(),
                views(out@) == values_of(
                    attribute_views(self.attributes@).subrange(0, i as int),
                    word(key@),
                ),
            decreases self.attributes@.len() - i,
        {
            let ghost all = attribute_views(self.attributes@);
            proof {
                assert(all.subrange(0, i + 1).drop_last() =~= all.subrange(0, i as int));
                assert(all.subrange(0, i + 1).last() == self.attributes@[i as int]@);
            }
            if is_word(self.attributes[i].key.as_slice(), key) {
                let value = slice_to_vec(self.attributes[i].value.as_slice());
                proof {
                    lemma_views_push(out@, value);
                }
                out.push(value);
            }
            i += 1;
        }
        assert(attribute_views(self.attributes@).subrange(0, i as int) =~= attribute_views(
            self.attributes@,
        ));
        out
    }

    /// The first value of the attribute whose key is the word `key`.
    pub fn first(&self, key: &str) -> (r: Option<Vec<u8>>)
        ensures
            optional_text(r) == first_value(self@.attributes, word(key@)),
    {
        let mut all = self.values(key);
        if all.len() > 0 {
            let ghost before = all@;
            let v = all.swap_remove(0);
            assert(views(before)[0] == v@);
            Some(v)
        } else {
            None
        }
    }

    /// A block that starts at `offset` and holds no attribute yet.
    pub fn new(offset: u64) -> (e: RawEntry)
        ensures
            e@ == (RawEntryView { offset, attributes: Seq::empty() }),
    {
        let e = RawEntry { offset, attributes: Vec::new() };
        assert(e@.attributes =~= Seq::empty());
        e
    }
}

} // verus!
