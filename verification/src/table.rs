//! An id-keyed record table: the in-memory form of each persisted
//! collection (profiles, repositories, groups, rules, credentials, keys).
//! Records keep insertion order; `save` replaces the first record with the
//! same id or appends, `delete` drops every record with the id.
use vstd::prelude::*;
use crate::error::AppError;
use crate::ids::new_id;

verus! {

/// A record identified by a 128-bit id.
pub trait Record: Sized {
    spec fn id_of(&self) -> u128;

    fn id(&self) -> (r: u128)
        ensures
            r == self.id_of(),
    ;

    /// A field-by-field copy.
    fn duplicate(&self) -> (r: Self)
        ensures
            r == *self,
    ;
}

/// Index of the first record with `id` at or after `i`, or -1.
pub open spec fn first_index_from<T: Record>(s: Seq<T>, id: u128, i: int) -> int
    decreases s.len() - i,
{
    if i < 0 || i >= s.len() {
        -1
    } else if s[i].id_of() == id {
        i
    } else {
        first_index_from(s, id, i + 1)
    }
}

/// Index of the first record with `id`, or -1.
pub open spec fn first_index<T: Record>(s: Seq<T>, id: u128) -> int {
    first_index_from(s, id, 0)
}

/// The first record with `id`.
pub open spec fn find_spec<T: Record>(s: Seq<T>, id: u128) -> Option<T> {
    let k = first_index(s, id);
    if k >= 0 {
        Some(s[k])
    } else {
        None
    }
}

/// Whether some record has `id`.
pub open spec fn has_id<T: Record>(s: Seq<T>, id: u128) -> bool {
    exists|i: int| 0 <= i < s.len() && #[trigger] s[i].id_of() == id
}

/// Replace the first record with `x`'s id by `x`, or append `x`.
pub open spec fn upsert<T: Record>(s: Seq<T>, x: T) -> Seq<T> {
    let k = first_index(s, x.id_of());
    if k >= 0 {
        s.update(k, x)
    } else {
        s.push(x)
    }
}

/// Every record whose id is not `id`, in order.
pub open spec fn without_id<T: Record>(s: Seq<T>, id: u128) -> Seq<T> {
    s.filter(|r: T| r.id_of() != id)
}

pub proof fn lemma_first_index_from<T: Record>(s: Seq<T>, id: u128, i: int)
    requires
        0 <= i <= s.len(),
    ensures
        -1 <= first_index_from(s, id, i) < s.len(),
        first_index_from(s, id, i) >= 0 ==> i <= first_index_from(s, id, i) && s[first_index_from(
            s,
            id,
            i,
        )].id_of() == id,
        forall|j: int|
            i <= j < s.len() && (first_index_from(s, id, i) < 0 || j < first_index_from(s, id, i))
                ==> #[trigger] s[j].id_of() != id,
    decreases s.len() - i,
{
    if i < s.len() && s[i].id_of() != id {
        lemma_first_index_from(s, id, i + 1);
    }
}

/// Facts about `first_index`: it is the first record with the id, and it is
/// -1 exactly when no record has the id.
pub proof fn lemma_first_index<T: Record>(s: Seq<T>, id: u128)
    ensures
        -1 <= first_index(s, id) < s.len(),
        first_index(s, id) >= 0 ==> s[first_index(s, id)].id_of() == id,
        forall|j: int|
            0 <= j < s.len() && (first_index(s, id) < 0 || j < first_index(s, id))
                ==> #[trigger] s[j].id_of() != id,
        (first_index(s, id) >= 0) == has_id(s, id),
{
    lemma_first_index_from(s, id, 0);
    if first_index(s, id) >= 0 {
        assert(s[first_index(s, id)].id_of() == id);
    }
}

/// The ids `0..=s.len()` cannot all be in use in `s`: `s` has fewer records.
proof fn lemma_ids_cannot_cover<T: Record>(s: Seq<T>)
    requires
        s.len() <= usize::MAX,
    ensures
        exists|c: u128| c <= s.len() && !#[trigger] has_id(s, c),
{
    if forall|c: u128| c <= s.len() ==> #[trigger] has_id(s, c) {
        lemma_ids_cover_bound(s);
    }
}

proof fn lemma_ids_cover_bound<T: Record>(s: Seq<T>)
    requires
        s.len() <= usize::MAX,
        forall|c: u128| c <= s.len() ==> #[trigger] has_id(s, c),
    ensures
        s.len() + 1 <= s.len(),
{
    let ids = s.map_values(|r: T| r.id_of() as int);
    ids.lemma_cardinality_of_set();
    vstd::seq_lib::seq_to_set_is_finite(ids);
    vstd::set_lib::lemma_int_range(0, s.len() as int + 1);
    let range = vstd::set_lib::set_int_range(0, s.len() as int + 1);
    assert forall|k: int| range.contains(k) implies ids.to_set().contains(k) by {
        let c = k as u128;
        assert(c as int == k);
        assert(has_id(s, c));
        let i = choose|i: int| 0 <= i < s.len() && #[trigger] s[i].id_of() == c;
        assert(ids[i] == k);
    }
    vstd::set_lib::lemma_len_subset(range, ids.to_set());
}

/// An id that no record of `items` has: a fresh random one (`uuid` v4),
/// or, should that be taken, the least unused id.
pub fn fresh_id_in<T: Record>(items: &Vec<T>) -> (id: u128)
    ensures
        !has_id(items@, id),
{
    let candidate = new_id();
    if position_in(items, candidate).is_none() {
        proof {
            lemma_first_index(items@, candidate);
        }
        return candidate;
    }
    let n = items.len();
    let mut c: u128 = 0;
    while c <= n as u128
        invariant
            n == items@.len(),
            c <= n + 1,
            forall|k: u128| k < c ==> #[trigger] has_id(items@, k),
        decreases n + 1 - c,
    {
        proof {
            lemma_first_index(items@, c);
        }
        if position_in(items, c).is_none() {
            return c;
        }
        c = c + 1;
    }
    proof {
        lemma_ids_cannot_cover(items@);
        let k = choose|k: u128| k <= items@.len() && !#[trigger] has_id(items@, k);
        assert(has_id(items@, k));
    }
    c
}

/// Position of the first record of `items` with `id`.
fn position_in<T: Record>(items: &Vec<T>, id: u128) -> (r: Option<usize>)
    ensures
        match r {
            Some(k) => k as int == first_index(items@, id),
            None => first_index(items@, id) == -1,
        },
{
    let mut i: usize = 0;
    while i < items.len()
        invariant
            i <= items@.len(),
            first_index(items@, id) == first_index_from(items@, id, i as int),
        decreases items@.len() - i,
    {
        if items[i].id() == id {
            return Some(i);
        }
        i = i + 1;
    }
    None
}

/// Two sequences whose records match `id` at the same positions have the
/// same first match for it.
proof fn lemma_first_index_from_same<T: Record>(s: Seq<T>, t: Seq<T>, id: u128, i: int)
    requires
        s.len() == t.len(),
        forall|j: int| 0 <= j < s.len() ==> (#[trigger] s[j].id_of() == id) == (t[j].id_of() == id),
    ensures
        first_index_from(s, id, i) == first_index_from(t, id, i),
    decreases s.len() - i,
{
    if 0 <= i < s.len() {
        lemma_first_index_from_same(s, t, id, i + 1);
    }
}

/// Appending a record with another id does not change the first match.
proof fn lemma_first_index_from_push<T: Record>(s: Seq<T>, x: T, id: u128, i: int)
    requires
        x.id_of() != id,
        0 <= i,
    ensures
        first_index_from(s.push(x), id, i) == first_index_from(s, id, i),
    decreases s.len() + 1 - i,
{
    if i < s.len() {
        assert(s.push(x)[i] == s[i]);
        lemma_first_index_from_push(s, x, id, i + 1);
    } else if i == s.len() {
        assert(s.push(x)[i] == x);
        assert(first_index_from(s.push(x), id, i + 1) == -1);
    }
}

/// Saving a record and then finding its id gives the record back; finding
/// any other id gives what it gave before.
pub proof fn lemma_find_after_save<T: Record>(s: Seq<T>, x: T, id: u128)
    ensures
        find_spec(upsert(s, x), x.id_of()) == Some(x),
        id != x.id_of() ==> find_spec(upsert(s, x), id) == find_spec(s, id),
{
    let k = first_index(s, x.id_of());
    lemma_first_index(s, x.id_of());
    lemma_first_index(s, id);
    let u = upsert(s, x);
    if k >= 0 {
        assert forall|j: int| 0 <= j < s.len() implies (#[trigger] s[j].id_of() == x.id_of()) == (
        u[j].id_of() == x.id_of()) by {
            if j == k {
                assert(u[j] == x);
            }
        }
        lemma_first_index_from_same(s, u, x.id_of(), 0);
        if id != x.id_of() {
            assert forall|j: int| 0 <= j < s.len() implies (#[trigger] s[j].id_of() == id) == (
            u[j].id_of() == id) by {
                if j == k {
                    assert(u[j] == x);
                }
            }
            lemma_first_index_from_same(s, u, id, 0);
            if first_index(s, id) >= 0 {
                assert(first_index(s, id) != k);
            }
        }
    } else {
        lemma_first_index(u, x.id_of());
        assert(u[s.len() as int] == x);
        assert forall|j: int| 0 <= j < s.len() implies #[trigger] u[j].id_of() != x.id_of() by {
            assert(u[j] == s[j]);
        }
        if first_index(u, x.id_of()) != s.len() {
            assert(u[first_index(u, x.id_of())].id_of() == x.id_of());
        }
        if id != x.id_of() {
            lemma_first_index_from_push(s, x, id, 0);
        }
    }
}

/// Once an id is deleted, no record has it.
pub proof fn lemma_find_after_delete<T: Record>(s: Seq<T>, id: u128)
    ensures
        !has_id(without_id(s, id), id),
        find_spec(without_id(s, id), id) is None,
{
    let w = without_id(s, id);
    s.filter_lemma(|r: T| r.id_of() != id);
    lemma_first_index(w, id);
    if has_id(w, id) {
        let j = choose|j: int| 0 <= j < w.len() && #[trigger] w[j].id_of() == id;
        assert(w[j].id_of() != id);
    }
}

/// The table: a sequence of records.
pub struct Table<T> {
    items: Vec<T>,
}

impl<T: Record> View for Table<T> {
    type V = Seq<T>;

    open spec fn view(&self) -> Seq<T> {
        self.items_view()
    }
}

impl<T: Record> Table<T> {
    pub closed spec fn items_view(&self) -> Seq<T> {
        self.items@
    }

    pub fn new() -> (t: Self)
        ensures
            t@ == Seq::<T>::empty(),
    {
        Table { items: Vec::new() }
    }

    /// A table holding exactly `items`.
    pub fn from_vec(items: Vec<T>) -> (t: Self)
        ensures
            t@ == items@,
    {
        Table { items }
    }

    pub fn len(&self) -> (n: usize)
        ensures
            n == self@.len(),
    {
        self.items.len()
    }

    /// The record at position `i`.
    pub fn at(&self, i: usize) -> (r: &T)
        requires
            i < self@.len(),
        ensures
            *r == self@[i as int],
    {
        &self.items[i]
    }

    /// A copy of every record, in order (`load_all`).
    pub fn load_all(&self) -> (v: Vec<T>)
        ensures
            v@ == self@,
    {
        let mut v: Vec<T> = Vec::new();
        let mut i: usize = 0;
        while i < self.items.len()
            invariant
                i <= self.items@.len(),
                v@ == self.items@.subrange(0, i as int),
            decreases self.items@.len() - i,
        {
            v.push(self.items[i].duplicate());
            i = i + 1;
            assert(v@ =~= self.items@.subrange(0, i as int));
        }
        assert(v@ =~= self.items@);
        v
    }

    /// Position of the first record with `id`.
    pub fn position(&self, id: u128) -> (r: Option<usize>)
        ensures
            match r {
                Some(k) => k as int == first_index(self@, id),
                None => first_index(self@, id) == -1,
            },
    {
        let mut i: usize = 0;
        while i < self.items.len()
            invariant
                i <= self.items@.len(),
                first_index(self@, id) == first_index_from(self@, id, i as int),
            decreases self.items@.len() - i,
        {
            if self.items[i].id() == id {
                return Some(i);
            }
            i = i + 1;
        }
        None
    }

    /// An id that no record has (see `fresh_id_in`).
    pub fn fresh_id(&self) -> (id: u128)
        ensures
            !has_id(self@, id),
    {
        fresh_id_in(&self.items)
    }

    /// A copy of the first record with `id` (`find`).
    pub fn find(&self, id: u128) -> (r: Option<T>)
        ensures
            r == find_spec(self@, id),
    {
        proof {
            lemma_first_index(self@, id);
        }
        match self.position(id) {
            Some(k) => Some(self.items[k].duplicate()),
            None => None,
        }
    }

    /// Replace the record with the same id, or append (`save`).
    pub fn save(&mut self, x: T)
        ensures
            final(self)@ == upsert(old(self)@, x),
    {
        proof {
            lemma_first_index(self@, x.id_of());
        }
        let id = x.id();
        match self.position(id) {
            Some(k) => {
                self.items.set(k, x);
            },
            None => {
                self.items.push(x);
            },
        }
    }

    /// Replace the whole content (`save_all`).
    pub fn save_all(&mut self, items: Vec<T>)
        ensures
            final(self)@ == items@,
    {
        self.items = items;
    }

    /// Remove every record with `id`; `NotFound` when there is none (`delete`).
    pub fn delete(&mut self, id: u128) -> (r: Result<(), AppError>)
        ensures
            r is Ok <==> has_id(old(self)@, id),
            r is Ok ==> final(self)@ == without_id(old(self)@, id),
            r is Err ==> final(self)@ == old(self)@ && r->Err_0 is NotFound,
    {
        let ghost old_items = self.items@;
        let mut kept: Vec<T> = Vec::new();
        let mut found = false;
        let ghost mut seen: Seq<T> = Seq::empty();
        while self.items.len() > 0
            invariant
                old_items == seen + self.items@,
                kept@ == without_id(seen, id),
                found == has_id(seen, id),
            decreases self.items@.len(),
        {
            let x = self.items.remove(0);
            proof {
                assert(seen.push(x).drop_last() =~= seen);
                reveal_filter(seen.push(x), id);
                seen = seen.push(x);
            }
            if x.id() == id {
                found = true;
            } else {
                kept.push(x);
            }
            proof {
                if has_id(seen.drop_last(), id) {
                    let w = choose|w: int| 0 <= w < seen.drop_last().len() && #[trigger] seen.drop_last()[w].id_of() == id;
                    assert(seen[w].id_of() == id);
                }
                if found && !has_id(seen.drop_last(), id) {
                    assert(seen[seen.len() - 1].id_of() == id);
                }
                if has_id(seen, id) && !has_id(seen.drop_last(), id) {
                    let w = choose|w: int| 0 <= w < seen.len() && #[trigger] seen[w].id_of() == id;
                    if w < seen.len() - 1 {
                        assert(seen.drop_last()[w].id_of() == id);
                    }
                }
            }
        }
        assert(seen =~= old_items);
        if found {
            self.items = kept;
            Ok(())
        } else {
            self.items = kept;
            proof {
                assert forall|k: int| 0 <= k < old_items.len() implies old_items[k].id_of() != id by {
                    if old_items[k].id_of() == id {
                        assert(has_id(old_items, id));
                    }
                }
                lemma_filter_all_kept(old_items, id);
            }
            Err(AppError::NotFound(String::from_str("record")))
        }
    }
}

proof fn reveal_filter<T: Record>(s: Seq<T>, id: u128)
    requires
        s.len() > 0,
    ensures
        without_id(s, id) == (if s.last().id_of() != id {
            without_id(s.drop_last(), id).push(s.last())
        } else {
            without_id(s.drop_last(), id)
        }),
{
    reveal(Seq::filter);
}

proof fn lemma_filter_all_kept<T: Record>(s: Seq<T>, id: u128)
    requires
        forall|k: int| 0 <= k < s.len() ==> s[k].id_of() != id,
    ensures
        without_id(s, id) == s,
    decreases s.len(),
{
    if s.len() > 0 {
        reveal_filter(s, id);
        lemma_filter_all_kept(s.drop_last(), id);
        assert(s.drop_last().push(s.last()) =~= s);
    }
}

} // verus!
