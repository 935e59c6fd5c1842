use vstd::prelude::*;

use crate::assoc::assoc_map;
use crate::assoc::lemma_assoc_map_domain;
use crate::assoc::lemma_assoc_map_last_write;
use crate::assoc::lemma_assoc_map_order_irrelevant;
use crate::assoc::lemma_assoc_map_push;
use crate::assoc::lemma_assoc_map_remove;
use crate::assoc::unique_keys;
use crate::keys::KeyView;
use crate::keys::ParamKey;
use crate::parsing::parse_value;
use crate::parsing::spec_parse_value;
use crate::parsing::ParseError;
use crate::tokens::toks_view;
use crate::tokens::TokView;
use crate::tokens::Token;
use crate::values::ParamVal;
use crate::values::ValView;

verus! {

/// The mapping of parameter keys to parameter values for one
/// attribute-argument list. Entries are inserted by the item-list parser
/// and consumed, by removal, during record extraction.
#[derive(Debug)]
pub struct Parameters {
    entries: Vec<(ParamKey, ParamVal)>,
}

/// The views of the stored entries, in storage order.
pub open spec fn entry_views(s: Seq<(ParamKey, ParamVal)>) -> Seq<(KeyView, ValView)> {
    Seq::new(s.len(), |i: int| (s[i].0@, s[i].1@))
}

impl View for Parameters {
    type V = Map<KeyView, ValView>;

    closed spec fn view(&self) -> Map<KeyView, ValView> {
        assoc_map(entry_views(self.entries@))
    }
}

impl Parameters {
    /// Internal well-formedness: no two stored entries share a key.
    pub closed spec fn wf(&self) -> bool {
        unique_keys(entry_views(self.entries@))
    }

    /// An empty map.
    pub fn new() -> (r: Parameters)
        ensures
            r.wf(),
            r@ == Map::<KeyView, ValView>::empty(),
    {
        let r = Parameters { entries: Vec::new() };
        proof {
            assert(entry_views(r.entries@) =~= Seq::<(KeyView, ValView)>::empty());
        }
        r
    }

    /// The position of the entry holding the key, if any.
    fn find(&self, key: &ParamKey) -> (r: Option<usize>)
        requires
            self.wf(),
        ensures
            match r {
                Some(i) => i < self.entries@.len() && self.entries@[i as int].0@ == key@,
                None => !self@.contains_key(key@),
            },
    {
        let mut i: usize = 0;
        while i < self.entries.len()
            invariant
                i <= self.entries@.len(),
                forall|j: int| 0 <= j < i ==> (#[trigger] entry_views(self.entries@)[j]).0 != key@,
            decreases self.entries@.len() - i,
        {
            if self.entries[i].0.key_eq(key) {
                return Some(i);
            }
            i = i + 1;
        }
        proof {
            lemma_assoc_map_domain(entry_views(self.entries@), key@);
        }
        None
    }

    /// Reads the value at a key without removing it; used for inspection
    /// only, extraction goes through `remove`.
    pub fn get(&self, key: &ParamKey) -> (r: Option<&ParamVal>)
        requires
            self.wf(),
        ensures
            match r {
                Some(v) => self@.contains_key(key@) && v@ == self@[key@],
                None => !self@.contains_key(key@),
            },
    {
        match self.find(key) {
            Some(i) => {
                proof {
                    lemma_assoc_map_last_write(entry_views(self.entries@), i as int);
                }
                Some(&self.entries[i].1)
            },
            None => None,
        }
    }

    /// Inserts a value at a key, overwriting and returning any value the
    /// key already held: a later entry with the same key wins.
    pub fn insert(&mut self, key: ParamKey, val: ParamVal) -> (r: Option<ParamVal>)
        requires
            old(self).wf(),
        ensures
            final(self).wf(),
            final(self)@ == old(self)@.insert(key@, val@),
            match r {
                Some(prev) => old(self)@.contains_key(key@) && prev@ == old(self)@[key@],
                None => !old(self)@.contains_key(key@),
            },
    {
        let ghost old_items = entry_views(self.entries@);
        match self.find(&key) {
            Some(i) => {
                proof {
                    lemma_assoc_map_last_write(old_items, i as int);
                    lemma_assoc_map_remove(old_items, i as int);
                }
                let prev = self.entries.remove(i);
                let ghost mid_items = entry_views(self.entries@);
                proof {
                    assert(mid_items =~= old_items.remove(i as int));
                }
                self.entries.push((key, val));
                proof {
                    assert(entry_views(self.entries@) =~= mid_items.push((key@, val@)));
                    lemma_assoc_map_push(mid_items, (key@, val@));
                    assert(assoc_map(old_items).remove(key@).insert(key@, val@) =~= assoc_map(
                        old_items,
                    ).insert(key@, val@));
                    lemma_assoc_map_domain(mid_items, key@);
                }
                Some(prev.1)
            },
            None => {
                self.entries.push((key, val));
                proof {
                    assert(entry_views(self.entries@) =~= old_items.push((key@, val@)));
                    lemma_assoc_map_push(old_items, (key@, val@));
                    lemma_assoc_map_domain(old_items, key@);
                }
                None
            },
        }
    }

    /// Removes and returns the value at a key. The entry is consumed: a
    /// second removal at the same key finds nothing.
    pub fn remove(&mut self, key: &ParamKey) -> (r: Option<ParamVal>)
        requires
            old(self).wf(),
        ensures
            final(self).wf(),
            match r {
                Some(v) => old(self)@.contains_key(key@) && v@ == old(self)@[key@] && final(self)@
                    == old(self)@.remove(key@),
                None => !old(self)@.contains_key(key@) && final(self)@ == old(self)@,
            },
    {
        let ghost old_items = entry_views(self.entries@);
        match self.find(key) {
            Some(i) => {
                proof {
                    lemma_assoc_map_last_write(old_items, i as int);
                    lemma_assoc_map_remove(old_items, i as int);
                }
                let prev = self.entries.remove(i);
                proof {
                    assert(entry_views(self.entries@) =~= old_items.remove(i as int));
                }
                Some(prev.1)
            },
            None => None,
        }
    }

    /// A deep, independent copy with the same contents, for speculative
    /// trial extraction: consuming entries of the copy leaves the original
    /// untouched.
    pub fn fork(&self) -> (r: Parameters)
        requires
            self.wf(),
        ensures
            r.wf(),
            r@ == self@,
    {
        let mut out: Vec<(ParamKey, ParamVal)> = Vec::new();
        let mut i: usize = 0;
        while i < self.entries.len()
            invariant
                i <= self.entries@.len(),
                out@.len() == i,
                forall|j: int|
                    0 <= j < i ==> (#[trigger] entry_views(out@)[j]) == entry_views(
                        self.entries@,
                    )[j],
            decreases self.entries@.len() - i,
        {
            let e = &self.entries[i];
            let k = e.0.duplicate();
            let v = e.1.duplicate();
            let ghost prev_out = out@;
            out.push((k, v));
            proof {
                assert forall|j: int| 0 <= j < i + 1 implies (#[trigger] entry_views(out@)[j])
                    == entry_views(self.entries@)[j] by {
                    if j < i {
                        assert(out@[j] == prev_out[j]);
                        assert(entry_views(prev_out)[j] == (prev_out[j].0@, prev_out[j].1@));
                    } else {
                        assert(out@[j] == (k, v));
                    }
                }
            }
            i = i + 1;
        }
        let r = Parameters { entries: out };
        proof {
            assert(entry_views(r.entries@) =~= entry_views(self.entries@));
        }
        r
    }

    /// Moves every entry out into a fresh map, leaving this one empty.
    pub fn drain(&mut self) -> (r: Parameters)
        requires
            old(self).wf(),
        ensures
            final(self).wf(),
            final(self)@ == Map::<KeyView, ValView>::empty(),
            r.wf(),
            r@ == old(self)@,
    {
        let mut taken: Vec<(ParamKey, ParamVal)> = Vec::new();
        core::mem::swap(&mut self.entries, &mut taken);
        proof {
            assert(entry_views(Seq::<(ParamKey, ParamVal)>::empty())
                =~= Seq::<(KeyView, ValView)>::empty());
            assert(entry_views(self.entries@) =~= Seq::<(KeyView, ValView)>::empty());
        }
        Parameters { entries: taken }
    }
}

impl Default for Parameters {
    /// An empty map.
    fn default() -> (r: Parameters)
        ensures
            r.wf(),
            r@ == Map::<KeyView, ValView>::empty(),
    {
        Parameters::new()
    }
}

/// One item of the comma-separated list, starting at `pos`; `idx` is the
/// item's zero-based position in the list. An item is `name = value`, a
/// bare-identifier flag standing for `name = true`, or a positional value
/// keyed by `idx`.
pub open spec fn spec_parse_item(t: Seq<TokView>, pos: int, idx: int) -> Result<
    ((KeyView, ValView), int),
    ParseError,
> {
    if pos < 0 || pos >= t.len() {
        Err(ParseError::UnsupportedExpression)
    } else {
        match t[pos] {
            TokView::Ident(name) => {
                if pos + 1 < t.len() && t[pos + 1] == TokView::Equals {
                    match spec_parse_value(t, pos + 2) {
                        Ok((v, p)) => Ok(((KeyView::Named(name), v), p)),
                        Err(e) => Err(e),
                    }
                } else {
                    Ok(((KeyView::Named(name), ValView::Bool(true)), pos + 1))
                }
            },
            _ => match spec_parse_value(t, pos) {
                Ok((v, p)) => Ok(((KeyView::Unnamed(idx), v), p)),
                Err(e) => Err(e),
            },
        }
    }
}

/// The items of the list from `pos` on, in order. Items are separated by
/// commas, a trailing comma produces no item, and an empty list yields no
/// items. The position counter `idx` advances once per item, whatever the
/// item's key.
///
/// A successful item parse always advances, so the guard on `p` below only
/// records that fact for the termination measure; it never changes the
/// result.
pub open spec fn spec_parse_items(t: Seq<TokView>, pos: int, idx: int) -> Result<
    Seq<(KeyView, ValView)>,
    ParseError,
>
    decreases t.len() - pos,
{
    if pos < 0 {
        Err(ParseError::UnsupportedExpression)
    } else if pos >= t.len() {
        Ok(Seq::empty())
    } else {
        match spec_parse_item(t, pos, idx) {
            Err(e) => Err(e),
            Ok((item, p)) => {
                let p2 = if p > pos {
                    p
                } else {
                    pos + 1
                };
                if p2 >= t.len() {
                    Ok(seq![item])
                } else if t[p2] == TokView::Comma {
                    match spec_parse_items(t, p2 + 1, idx + 1) {
                        Ok(rest) => Ok(seq![item] + rest),
                        Err(e) => Err(e),
                    }
                } else {
                    Err(ParseError::UnsupportedExpression)
                }
            },
        }
    }
}

/// Parses one item at `pos`, exactly as `spec_parse_item` prescribes.
fn parse_item(tokens: &Vec<Token>, pos: usize, idx: usize) -> (r: Result<
    ((ParamKey, ParamVal), usize),
    ParseError,
>)
    ensures
        match (r, spec_parse_item(toks_view(tokens@), pos as int, idx as int)) {
            (Ok(((k, v), np)), Ok(((sk, sv), sp))) => k@ == sk && v@ == sv && np as int == sp,
            (Err(e), Err(se)) => e == se,
            _ => false,
        },
        r matches Ok((kv, np)) ==> pos < np <= tokens@.len(),
{
    if pos >= tokens.len() {
        return Err(ParseError::UnsupportedExpression);
    }
    match &tokens[pos] {
        Token::Ident(name) => {
            if pos + 1 < tokens.len() {
                if let Token::Equals = &tokens[pos + 1] {
                    return match parse_value(tokens, pos + 2) {
                        Ok((v, p)) => Ok(((ParamKey::Named(name.clone()), v), p)),
                        Err(e) => Err(e),
                    };
                }
            }
            Ok(((ParamKey::Named(name.clone()), ParamVal::Bool(true)), pos + 1))
        },
        _ => match parse_value(tokens, pos) {
            Ok((v, p)) => Ok(((ParamKey::Unnamed(idx), v), p)),
            Err(e) => Err(e),
        },
    }
}

/// Parses a whole raw item list into a parameter map, exactly as
/// `spec_parse_items` prescribes: the items in order, with a later item
/// overwriting an earlier one under the same key.
pub fn parse_parameters(tokens: &Vec<Token>) -> (r: Result<Parameters, ParseError>)
    ensures
        match r {
            Ok(p) => p.wf() && (spec_parse_items(toks_view(tokens@), 0, 0) matches Ok(items)
                && p@ == assoc_map(items)),
            Err(e) => spec_parse_items(toks_view(tokens@), 0, 0) == Err::<
                Seq<(KeyView, ValView)>,
                ParseError,
            >(e),
        },
{
    let ghost t = toks_view(tokens@);
    let mut params = Parameters::new();
    let mut pos: usize = 0;
    let mut idx: usize = 0;
    let ghost mut done: Seq<(KeyView, ValView)> = Seq::empty();
    while pos < tokens.len()
        invariant
            t == toks_view(tokens@),
            t.len() == tokens@.len(),
            pos <= tokens@.len(),
            idx <= pos,
            params.wf(),
            params@ == assoc_map(done),
            spec_parse_items(t, 0, 0) == (match spec_parse_items(t, pos as int, idx as int) {
                Ok(rest) => Ok::<Seq<(KeyView, ValView)>, ParseError>(done + rest),
                Err(e) => Err::<Seq<(KeyView, ValView)>, ParseError>(e),
            }),
        decreases tokens@.len() - pos,
    {
        match parse_item(tokens, pos, idx) {
            Err(e) => {
                return Err(e);
            },
            Ok(((k, v), p)) => {
                let ghost item = (k@, v@);
                let ghost prev_done = done;
                params.insert(k, v);
                proof {
                    lemma_assoc_map_push(done, item);
                    done = done.push(item);
                }
                if p >= tokens.len() {
                    proof {
                        assert(spec_parse_items(t, pos as int, idx as int) == Ok::<
                            Seq<(KeyView, ValView)>,
                            ParseError,
                        >(seq![item]));
                        assert(prev_done + seq![item] =~= done);
                        assert(done + Seq::<(KeyView, ValView)>::empty() =~= done);
                    }
                    pos = p;
                    idx = idx + 1;
                } else {
                    let comma = if let Token::Comma = &tokens[p] {
                        true
                    } else {
                        false
                    };
                    if !comma {
                        proof {
                            assert(spec_parse_items(t, pos as int, idx as int) == Err::<
                                Seq<(KeyView, ValView)>,
                                ParseError,
                            >(ParseError::UnsupportedExpression));
                        }
                        return Err(ParseError::UnsupportedExpression);
                    }
                    proof {
                        match spec_parse_items(t, p + 1, idx as int + 1) {
                            Ok(rest) => {
                                assert(prev_done + (seq![item] + rest) =~= done + rest);
                            },
                            Err(_) => {},
                        }
                    }
                    pos = p + 1;
                    idx = idx + 1;
                }
            },
        }
    }
    proof {
        assert(spec_parse_items(t, pos as int, idx as int) == Ok::<
            Seq<(KeyView, ValView)>,
            ParseError,
        >(Seq::empty()));
        assert(done + Seq::<(KeyView, ValView)>::empty() =~= done);
    }
    Ok(params)
}

/// Law: no cross-item interference. After a successful parse, the map
/// sends the key of any item that no later item overwrites to exactly the
/// value that item wrote, whatever the surrounding items hold.
pub proof fn lemma_parse_keeps_last_write(
    t: Seq<TokView>,
    items: Seq<(KeyView, ValView)>,
    i: int,
)
    requires
        spec_parse_items(t, 0, 0) == Ok::<Seq<(KeyView, ValView)>, ParseError>(items),
        0 <= i < items.len(),
        forall|j: int| i < j < items.len() ==> (#[trigger] items[j]).0 != items[i].0,
    ensures
        assoc_map(items).contains_key(items[i].0),
        assoc_map(items)[items[i].0] == items[i].1,
{
    lemma_assoc_map_last_write(items, i);
}

/// Law: no spurious keys. After a successful parse, a key is present in
/// the map exactly when some item wrote it.
pub proof fn lemma_parse_writes_no_other_key(
    t: Seq<TokView>,
    items: Seq<(KeyView, ValView)>,
    k: KeyView,
)
    requires
        spec_parse_items(t, 0, 0) == Ok::<Seq<(KeyView, ValView)>, ParseError>(items),
    ensures
        assoc_map(items).contains_key(k) <==> exists|i: int|
            0 <= i < items.len() && (#[trigger] items[i]).0 == k,
{
    lemma_assoc_map_domain(items, k);
}

/// Law: no cross-item interference between differently-keyed items. Two
/// parses whose item lists hold the same entries, with all keys distinct,
/// build the same map, whatever the items' relative order.
pub proof fn lemma_parse_order_irrelevant(
    t1: Seq<TokView>,
    t2: Seq<TokView>,
    items1: Seq<(KeyView, ValView)>,
    items2: Seq<(KeyView, ValView)>,
)
    requires
        spec_parse_items(t1, 0, 0) == Ok::<Seq<(KeyView, ValView)>, ParseError>(items1),
        spec_parse_items(t2, 0, 0) == Ok::<Seq<(KeyView, ValView)>, ParseError>(items2),
        unique_keys(items1),
        items1.to_multiset() == items2.to_multiset(),
    ensures
        assoc_map(items2) == assoc_map(items1),
{
    lemma_assoc_map_order_irrelevant(items1, items2);
}

/// Law: consumption by removal. Once an entry is removed, its key is
/// absent, so a second removal at the same key finds nothing.
pub proof fn lemma_remove_consumes(m: Map<KeyView, ValView>, k: KeyView)
    ensures
        !m.remove(k).contains_key(k),
{
}

} // verus!
