use vstd::prelude::*;
use vstd::string::StrSliceExecFns;

use crate::assoc::assoc_map;
use crate::assoc::lemma_assoc_map_domain;
use crate::assoc::lemma_assoc_map_last_write;
use crate::assoc::lemma_assoc_map_push;
use crate::assoc::lemma_assoc_map_remove;
use crate::assoc::unique_keys;

verus! {

/// The value of one attribute argument in the simple name-value form,
/// where every argument is `name = literal` and an integer literal is
/// unsigned.
#[derive(Debug, PartialEq)]
pub enum AttrVal {
    Bool(bool),
    Int(u64),
    Str(String),
}

/// The mathematical identity of an `AttrVal`.
pub enum AttrValView {
    Bool(bool),
    Int(u64),
    Str(Seq<char>),
}

impl View for AttrVal {
    type V = AttrValView;

    open spec fn view(&self) -> AttrValView {
        match self {
            AttrVal::Bool(b) => AttrValView::Bool(*b),
            AttrVal::Int(n) => AttrValView::Int(*n),
            AttrVal::Str(s) => AttrValView::Str(s@),
        }
    }
}

/// An error received when an `AttrVal` holds the wrong variant for the
/// type it is being converted into.
#[derive(Debug, PartialEq, Eq, Structural, Clone, Copy)]
pub struct TryIntoAttrValError;

impl AttrVal {
    /// Converts into `bool`; fails on any other variant.
    pub fn try_into_bool(self) -> (r: Result<bool, TryIntoAttrValError>)
        ensures
            r == (match self@ {
                AttrValView::Bool(b) => Ok::<bool, TryIntoAttrValError>(b),
                _ => Err::<bool, TryIntoAttrValError>(TryIntoAttrValError),
            }),
    {
        if let AttrVal::Bool(b) = self {
            Ok(b)
        } else {
            Err(TryIntoAttrValError)
        }
    }

    /// Converts into a 64-bit unsigned integer; fails on any other
    /// variant.
    pub fn try_into_int(self) -> (r: Result<u64, TryIntoAttrValError>)
        ensures
            r == (match self@ {
                AttrValView::Int(n) => Ok::<u64, TryIntoAttrValError>(n),
                _ => Err::<u64, TryIntoAttrValError>(TryIntoAttrValError),
            }),
    {
        if let AttrVal::Int(n) = self {
            Ok(n)
        } else {
            Err(TryIntoAttrValError)
        }
    }

    /// Converts into a string; fails on any other variant.
    pub fn try_into_string(self) -> (r: Result<String, TryIntoAttrValError>)
        ensures
            match self@ {
                AttrValView::Str(cs) => r matches Ok(s) && s@ == cs,
                _ => r == Err::<String, TryIntoAttrValError>(TryIntoAttrValError),
            },
    {
        if let AttrVal::Str(s) = self {
            Ok(s)
        } else {
            Err(TryIntoAttrValError)
        }
    }
}

impl From<bool> for AttrVal {
    /// Wraps a `bool` in its value variant.
    fn from(src: bool) -> (r: AttrVal) {
        AttrVal::Bool(src)
    }
}

impl vstd::std_specs::convert::FromSpecImpl<bool> for AttrVal {
    open spec fn obeys_from_spec() -> bool {
        true
    }

    open spec fn from_spec(src: bool) -> AttrVal {
        AttrVal::Bool(src)
    }
}

impl From<u64> for AttrVal {
    /// Wraps a 64-bit unsigned integer in its value variant.
    fn from(src: u64) -> (r: AttrVal) {
        AttrVal::Int(src)
    }
}

impl vstd::std_specs::convert::FromSpecImpl<u64> for AttrVal {
    open spec fn obeys_from_spec() -> bool {
        true
    }

    open spec fn from_spec(src: u64) -> AttrVal {
        AttrVal::Int(src)
    }
}

/// Character-by-character string equality.
fn str_eq(a: &str, b: &str) -> (r: bool)
    ensures
        r == (a@ == b@),
{
    let alen: usize = a.unicode_len();
    let blen: usize = b.unicode_len();
    if alen != blen {
        return false;
    }
    let mut i: usize = 0;
    while i < alen
        invariant
            alen == a@.len(),
            alen == b@.len(),
            i <= alen,
            forall|j: int| 0 <= j < i ==> a@[j] == b@[j],
        decreases alen - i,
    {
        if a.get_char(i) != b.get_char(i) {
            return false;
        }
        i = i + 1;
    }
    proof {
        assert(a@ =~= b@);
    }
    true
}

/// A name-keyed map of attribute values for the simple name-value form.
/// Entries are inserted while the argument list is read and consumed, by
/// removal, when the target record takes its fields.
#[derive(Debug)]
pub struct AttrMap {
    entries: Vec<(String, AttrVal)>,
}

/// The views of the stored entries, in storage order.
pub open spec fn attr_entry_views(s: Seq<(String, AttrVal)>) -> Seq<(Seq<char>, AttrValView)> {
    Seq::new(s.len(), |i: int| (s[i].0@, s[i].1@))
}

impl View for AttrMap {
    type V = Map<Seq<char>, AttrValView>;

    closed spec fn view(&self) -> Map<Seq<char>, AttrValView> {
        assoc_map(attr_entry_views(self.entries@))
    }
}

impl AttrMap {
    /// Internal well-formedness: no two stored entries share a name.
    pub closed spec fn wf(&self) -> bool {
        unique_keys(attr_entry_views(self.entries@))
    }

    /// An empty map.
    pub fn new() -> (r: AttrMap)
        ensures
            r.wf(),
            r@ == Map::<Seq<char>, AttrValView>::empty(),
    {
        let r = AttrMap { entries: Vec::new() };
        proof {
            assert(attr_entry_views(r.entries@) =~= Seq::<(Seq<char>, AttrValView)>::empty());
        }
        r
    }

    /// The position of the entry holding the name, if any.
    fn find(&self, key: &str) -> (r: Option<usize>)
        requires
            self.wf(),
        ensures
            match r {
                Some(i) => i < self.entries@.len() && self.entries@[i as int].0@ == key@,
                None => !self@.contains_key(key@),
            },
    {
        let mut i: usize = 0;
        while i < self.entries.len()
            invariant
                i <= self.entries@.len(),
                forall|j: int|
                    0 <= j < i ==> (#[trigger] attr_entry_views(self.entries@)[j]).0 != key@,
            decreases self.entries@.len() - i,
        {
            if str_eq(self.entries[i].0.as_str(), key) {
                return Some(i);
            }
            i = i + 1;
        }
        proof {
            lemma_assoc_map_domain(attr_entry_views(self.entries@), key@);
        }
        None
    }

    /// Reads the value at a name without removing it.
    pub fn get(&self, key: &str) -> (r: Option<&AttrVal>)
        requires
            self.wf(),
        ensures
            match r {
                Some(v) => self@.contains_key(key@) && v@ == self@[key@],
                None => !self@.contains_key(key@),
            },
    {
        match self.find(key) {
            Some(i) => {
                proof {
                    lemma_assoc_map_last_write(attr_entry_views(self.entries@), i as int);
                }
                Some(&self.entries[i].1)
            },
            None => None,
        }
    }

    /// Inserts a value at a name, overwriting and returning any value the
    /// name already held.
    pub fn insert(&mut self, key: String, val: AttrVal) -> (r: Option<AttrVal>)
        requires
            old(self).wf(),
        ensures
            final(self).wf(),
            final(self)@ == old(self)@.insert(key@, val@),
            match r {
                Some(prev) => old(self)@.contains_key(key@) && prev@ == old(self)@[key@],
                None => !old(self)@.contains_key(key@),
            },
    {
        let ghost old_items = attr_entry_views(self.entries@);
        match self.find(key.as_str()) {
            Some(i) => {
                proof {
                    lemma_assoc_map_last_write(old_items, i as int);
                    lemma_assoc_map_remove(old_items, i as int);
                }
                let prev = self.entries.remove(i);
                let ghost mid_items = attr_entry_views(self.entries@);
                proof {
                    assert(mid_items =~= old_items.remove(i as int));
                }
                self.entries.push((key, val));
                proof {
                    assert(attr_entry_views(self.entries@) =~= mid_items.push((key@, val@)));
                    lemma_assoc_map_push(mid_items, (key@, val@));
                    assert(assoc_map(old_items).remove(key@).insert(key@, val@) =~= assoc_map(
                        old_items,
                    ).insert(key@, val@));
                    lemma_assoc_map_domain(mid_items, key@);
                }
                Some(prev.1)
            },
            None => {
                self.entries.push((key, val));
                proof {
                    assert(attr_entry_views(self.entries@) =~= old_items.push((key@, val@)));
                    lemma_assoc_map_push(old_items, (key@, val@));
                    lemma_assoc_map_domain(old_items, key@);
                }
                None
            },
        }
    }

    /// Removes and returns the value at a name. The entry is consumed: a
    /// second removal at the same name finds nothing.
    pub fn remove(&mut self, key: &str) -> (r: Option<AttrVal>)
        requires
            old(self).wf(),
        ensures
            final(self).wf(),
            match r {
                Some(v) => old(self)@.contains_key(key@) && v@ == old(self)@[key@] && final(self)@
                    == old(self)@.remove(key@),
                None => !old(self)@.contains_key(key@) && final(self)@ == old(self)@,
            },
    {
        let ghost old_items = attr_entry_views(self.entries@);
        match self.find(key) {
            Some(i) => {
                proof {
                    lemma_assoc_map_last_write(old_items, i as int);
                    lemma_assoc_map_remove(old_items, i as int);
                }
                let prev = self.entries.remove(i);
                proof {
                    assert(attr_entry_views(self.entries@) =~= old_items.remove(i as int));
                }
                Some(prev.1)
            },
            None => None,
        }
    }
}

impl Default for AttrMap {
    /// An empty map.
    fn default() -> (r: AttrMap)
        ensures
            r.wf(),
            r@ == Map::<Seq<char>, AttrValView>::empty(),
    {
        AttrMap::new()
    }
}

} // verus!
