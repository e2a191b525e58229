//! An ordered collection of attributes with name-keyed lookup.
//!
//! Insertion order is preserved; names are unique, and inserting a duplicate
//! name replaces the attribute in place, keeping its position.

use crate::attribute::Attribute;
use crate::name::{key_of, AttributeId, AttributeQName, NameKey};
use vstd::prelude::*;

verus! {

/// The first index whose attribute denotes the given name, if any.
pub open spec fn find_key(s: Seq<Attribute>, key: NameKey<AttributeId>) -> Option<int>
    decreases s.len(),
{
    if s.len() == 0 {
        None
    } else if key_of(&s[0].name) == key {
        Some(0int)
    } else {
        match find_key(s.drop_first(), key) {
            Some(i) => Some(i + 1),
            None => None,
        }
    }
}

/// The first index whose attribute has the same name as `name`, if any.
pub open spec fn find_attr(s: Seq<Attribute>, name: AttributeQName) -> Option<int> {
    find_key(s, key_of(&name))
}

/// What `find_key` returns: the first match, or nothing when no attribute
/// matches.
pub proof fn lemma_find_key_props(s: Seq<Attribute>, key: NameKey<AttributeId>)
    ensures
        match find_key(s, key) {
            Some(i) => 0 <= i < s.len() && key_of(&s[i].name) == key && (forall|j: int|
                0 <= j < i ==> key_of(&s[j].name) != key),
            None => forall|j: int| 0 <= j < s.len() ==> key_of(&s[j].name) != key,
        },
    decreases s.len(),
{
    if s.len() == 0 {
    } else if key_of(&s[0].name) == key {
    } else {
        lemma_find_key_props(s.drop_first(), key);
        assert forall|j: int| 1 <= j < s.len() implies s.drop_first()[j - 1] == s[j] by {}
    }
}

/// No attribute in the collection repeats the name of another.
pub open spec fn names_unique(s: Seq<Attribute>) -> bool {
    forall|i: int, j: int|
        #![trigger key_of(&s[i].name), key_of(&s[j].name)]
        0 <= i < j < s.len() ==> key_of(&s[i].name) != key_of(&s[j].name)
}

/// An ordered collection of attributes, names unique.
#[derive(Debug)]
pub struct Attributes {
    /// The attributes, in insertion order.
    pub vec: Vec<Attribute>,
}

impl View for Attributes {
    type V = Seq<Attribute>;

    open spec fn view(&self) -> Seq<Attribute> {
        self.vec@
    }
}

impl Clone for Attributes {
    fn clone(&self) -> (r: Self)
        ensures
            r@.len() == self@.len(),
            forall|i: int| 0 <= i < self@.len() ==> crate::attribute::attr_eq(&r@[i], &self@[i]),
            forall|i: int|
                0 <= i < self@.len() ==> (#[trigger] r@[i]).name == self@[i].name
                    && crate::value::spec_link_target(&r@[i].value) == crate::value::spec_link_target(
                    &self@[i].value,
                ),
    {
        let mut v: Vec<Attribute> = Vec::new();
        let mut i: usize = 0;
        while i < self.vec.len()
            invariant
                i <= self@.len(),
                v@.len() == i,
                forall|j: int| 0 <= j < i ==> crate::attribute::attr_eq(&v@[j], &self@[j]),
                forall|j: int|
                    0 <= j < i ==> (#[trigger] v@[j]).name == self@[j].name
                        && crate::value::spec_link_target(&v@[j].value)
                        == crate::value::spec_link_target(&self@[j].value),
            decreases self@.len() - i,
        {
            v.push(self.vec[i].clone());
            i += 1;
        }
        Attributes { vec: v }
    }
}

impl Attributes {
    /// Constructs an empty collection.
    pub fn new() -> (r: Attributes)
        ensures
            r@ == Seq::<Attribute>::empty(),
    {
        Attributes { vec: Vec::new() }
    }

    /// Returns the number of attributes.
    pub fn len(&self) -> (r: usize)
        ensures
            r == self@.len(),
    {
        self.vec.len()
    }

    /// Returns `true` when the collection is empty.
    pub fn is_empty(&self) -> (r: bool)
        ensures
            r == (self@.len() == 0),
    {
        self.vec.len() == 0
    }

    /// Returns the attribute at position `i` (insertion order).
    pub fn get_index(&self, i: usize) -> (r: &Attribute)
        requires
            i < self@.len(),
        ensures
            *r == self@[i as int],
    {
        &self.vec[i]
    }

    /// Returns the position of the attribute with the given name, if any.
    pub fn find_index(&self, name: &AttributeQName) -> (r: Option<usize>)
        ensures
            match r {
                Some(i) => find_attr(self@, *name) == Some(i as int),
                None => find_attr(self@, *name) is None,
            },
    {
        let mut i: usize = 0;
        while i < self.vec.len()
            invariant
                i <= self@.len(),
                forall|j: int| 0 <= j < i ==> key_of(&self@[j].name) != key_of(name),
            decreases self@.len() - i,
        {
            if self.vec[i].name.eq_name(name) {
                proof {
                    lemma_find_key_props(self@, key_of(name));
                }
                return Some(i);
            }
            i += 1;
        }
        proof {
            lemma_find_key_props(self@, key_of(name));
        }
        None
    }

    /// Returns `true` if an attribute with the given name is present.
    pub fn contains_name(&self, name: &AttributeQName) -> (r: bool)
        ensures
            r == (find_attr(self@, *name) is Some),
    {
        match self.find_index(name) {
            Some(_) => true,
            None => false,
        }
    }

    /// Returns `true` if an attribute named by the prefix-free known
    /// identifier `id` is present.
    pub fn contains(&self, id: AttributeId) -> (r: bool)
        ensures
            r == (find_key(self@, NameKey::Id(Seq::<char>::empty(), id)) is Some),
    {
        let name = crate::name::QName::Id(String::new(), id);
        self.contains_name(&name)
    }

    /// Returns the attribute named by the prefix-free known identifier `id`,
    /// if any.
    pub fn get(&self, id: AttributeId) -> (r: Option<&Attribute>)
        ensures
            match r {
                Some(a) => {
                    let f = find_key(self@, NameKey::Id(Seq::<char>::empty(), id));
                    f is Some && *a == self@[f->Some_0]
                },
                None => find_key(self@, NameKey::Id(Seq::<char>::empty(), id)) is None,
            },
    {
        let name = crate::name::QName::Id(String::new(), id);
        match self.find_index(&name) {
            Some(i) => {
                proof {
                    lemma_find_key_props(self@, key_of(&name));
                }
                Some(&self.vec[i])
            },
            None => None,
        }
    }

    /// Returns the value of the attribute with the given name, if any.
    pub fn get_value(&self, name: &AttributeQName) -> (r: Option<&crate::value::AttributeValue>)
        ensures
            match r {
                Some(v) => {
                    let f = find_attr(self@, *name);
                    f is Some && *v == self@[f->Some_0].value
                },
                None => find_attr(self@, *name) is None,
            },
    {
        match self.find_index(name) {
            Some(i) => {
                proof {
                    lemma_find_key_props(self@, key_of(name));
                }
                Some(&self.vec[i].value)
            },
            None => None,
        }
    }

    /// Inserts an attribute.  A present attribute of the same name is
    /// replaced in place, keeping its position; otherwise the attribute is
    /// appended.
    pub fn insert(&mut self, attr: Attribute)
        ensures
            final(self)@ == (match find_attr(old(self)@, attr.name) {
                Some(i) => old(self)@.update(i, attr),
                None => old(self)@.push(attr),
            }),
            names_unique(old(self)@) ==> names_unique(final(self)@),
    {
        proof {
            lemma_find_key_props(self@, key_of(&attr.name));
        }
        let ghost old_seq = self@;
        match self.find_index(&attr.name) {
            Some(i) => {
                self.vec.set(i, attr);
                proof {
                    if names_unique(old_seq) {
                        assert forall|x: int, y: int| 0 <= x < y < self@.len() implies key_of(
                            &self@[x].name,
                        ) != key_of(&self@[y].name) by {
                            assert(key_of(&old_seq[i as int].name) == key_of(&self@[i as int].name));
                        }
                    }
                }
            },
            None => {
                self.vec.push(attr);
                proof {
                    if names_unique(old_seq) {
                        assert forall|x: int, y: int| 0 <= x < y < self@.len() implies key_of(
                            &self@[x].name,
                        ) != key_of(&self@[y].name) by {}
                    }
                }
            },
        }
    }

    /// Appends an attribute whose name is not yet present.
    pub fn insert_new(&mut self, attr: Attribute)
        requires
            find_attr(old(self)@, attr.name) is None,
        ensures
            final(self)@ == old(self)@.push(attr),
            names_unique(old(self)@) ==> names_unique(final(self)@),
    {
        proof {
            lemma_find_key_props(self@, key_of(&attr.name));
        }
        let ghost old_seq = self@;
        self.vec.push(attr);
        proof {
            if names_unique(old_seq) {
                assert forall|x: int, y: int| 0 <= x < y < self@.len() implies key_of(
                    &self@[x].name,
                ) != key_of(&self@[y].name) by {}
            }
        }
    }

    /// Removes the attribute with the given name, if present.  This is the
    /// raw collection operation; removal on a node goes through the link
    /// bookkeeping instead.
    pub fn remove(&mut self, name: &AttributeQName)
        ensures
            final(self)@ == (match find_attr(old(self)@, *name) {
                Some(i) => old(self)@.remove(i),
                None => old(self)@,
            }),
            names_unique(old(self)@) ==> names_unique(final(self)@),
    {
        let ghost old_seq = self@;
        match self.find_index(name) {
            Some(i) => {
                proof {
                    lemma_find_key_props(self@, key_of(name));
                }
                self.vec.remove(i);
                proof {
                    if names_unique(old_seq) {
                        assert forall|x: int, y: int| 0 <= x < y < self@.len() implies key_of(
                            &self@[x].name,
                        ) != key_of(&self@[y].name) by {
                            if x < i {
                                assert(self@[x] == old_seq[x]);
                            } else {
                                assert(self@[x] == old_seq[x + 1]);
                            }
                            if y < i {
                                assert(self@[y] == old_seq[y]);
                            } else {
                                assert(self@[y] == old_seq[y + 1]);
                            }
                        }
                    }
                }
            },
            None => {},
        }
    }

    /// Removes the attribute at position `i`.
    pub fn remove_at(&mut self, i: usize)
        requires
            i < old(self)@.len(),
        ensures
            final(self)@ == old(self)@.remove(i as int),
            names_unique(old(self)@) ==> names_unique(final(self)@),
    {
        let ghost old_seq = self@;
        self.vec.remove(i);
        proof {
            if names_unique(old_seq) {
                assert forall|x: int, y: int| 0 <= x < y < self@.len() implies key_of(
                    &self@[x].name,
                ) != key_of(&self@[y].name) by {
                    if x < i {
                        assert(self@[x] == old_seq[x]);
                    } else {
                        assert(self@[x] == old_seq[x + 1]);
                    }
                    if y < i {
                        assert(self@[y] == old_seq[y]);
                    } else {
                        assert(self@[y] == old_seq[y + 1]);
                    }
                }
            }
        }
    }
}

} // verus!
