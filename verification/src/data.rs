//! Copying and comparing values by what they hold, and a map keyed by text.
use vstd::prelude::*;

verus! {

/// A value that can be copied: the copy holds what the value holds.
pub trait Duplicate: DeepView + Sized {
    fn duplicate(&self) -> (r: Self)
        ensures
            r.deep_view() == self.deep_view(),
    ;
}

/// Values that can be compared by what they hold.
pub trait Same: DeepView + Sized {
    fn same(&self, other: &Self) -> (r: bool)
        ensures
            r == (self.deep_view() == other.deep_view()),
    ;
}

/// What a result holds.
pub open spec fn result_view<T: DeepView, E: DeepView>(r: Result<T, E>) -> Result<T::V, E::V> {
    match r {
        Ok(v) => Ok(v.deep_view()),
        Err(e) => Err(e.deep_view()),
    }
}

impl Duplicate for String {
    fn duplicate(&self) -> (r: Self) {
        self.clone()
    }
}

impl Same for String {
    fn same(&self, other: &Self) -> (r: bool) {
        *self == *other
    }
}

impl Duplicate for bool {
    fn duplicate(&self) -> (r: Self) {
        *self
    }
}

impl Duplicate for usize {
    fn duplicate(&self) -> (r: Self) {
        *self
    }
}

impl Duplicate for u32 {
    fn duplicate(&self) -> (r: Self) {
        *self
    }
}

impl Duplicate for u64 {
    fn duplicate(&self) -> (r: Self) {
        *self
    }
}

impl<T: Duplicate> Duplicate for Vec<T> {
    fn duplicate(&self) -> (r: Self) {
        let mut out: Vec<T> = Vec::new();
        let mut i: usize = 0;
        while i < self.len()
            invariant
                i <= self.len(),
                out.len() == i,
                forall|j: int|
                    0 <= j < i ==> #[trigger] out@[j].deep_view() == self@[j].deep_view(),
            decreases self.len() - i,
        {
            out.push(self[i].duplicate());
            i += 1;
        }
        assert(out.deep_view() =~= self.deep_view());
        out
    }
}

impl<T: Same> Same for Vec<T> {
    fn same(&self, other: &Self) -> (r: bool) {
        if self.len() != other.len() {
            assert(self.deep_view().len() != other.deep_view().len());
            return false;
        }
        let mut i: usize = 0;
        while i < self.len()
            invariant
                i <= self.len() == other.len(),
                forall|j: int|
                    0 <= j < i ==> #[trigger] self@[j].deep_view() == other@[j].deep_view(),
            decreases self.len() - i,
        {
            if !self[i].same(&other[i]) {
                assert(self.deep_view()[i as int] != other.deep_view()[i as int]);
                return false;
            }
            i += 1;
        }
        assert(self.deep_view() =~= other.deep_view());
        true
    }
}

impl<T: Duplicate> Duplicate for Option<T> {
    fn duplicate(&self) -> (r: Self) {
        match self {
            Some(x) => Some(x.duplicate()),
            None => None,
        }
    }
}

impl<A: Duplicate, B: Duplicate> Duplicate for (A, B) {
    fn duplicate(&self) -> (r: Self) {
        (self.0.duplicate(), self.1.duplicate())
    }
}

impl<A: Same, B: Same> Same for (A, B) {
    fn same(&self, other: &Self) -> (r: bool) {
        self.0.same(&other.0) && self.1.same(&other.1)
    }
}

impl<T: Same> Same for Option<T> {
    fn same(&self, other: &Self) -> (r: bool) {
        match (self, other) {
            (Some(x), Some(y)) => x.same(y),
            (None, None) => true,
            _ => false,
        }
    }
}

/// Whether the value stands in the list.
pub fn list_contains<T: Same>(list: &[T], value: &T) -> (b: bool)
    ensures
        b == list.deep_view().contains(value.deep_view()),
{
    let mut i: usize = 0;
    while i < list.len()
        invariant
            i <= list@.len(),
            forall|j: int| 0 <= j < i ==> #[trigger] list@[j].deep_view() != value.deep_view(),
        decreases list@.len() - i,
    {
        if list[i].same(value) {
            assert(list.deep_view()[i as int] == value.deep_view());
            return true;
        }
        i += 1;
    }
    assert forall|j: int| 0 <= j < list.deep_view().len() implies list.deep_view()[j]
        != value.deep_view() by {
        assert(list@[j].deep_view() != value.deep_view());
    }
    false
}

/// Putting an item behind a list, seen by contents.
pub fn append_item<T: DeepView>(list: &mut Vec<T>, item: T)
    ensures
        final(list).deep_view() == old(list).deep_view().push(item.deep_view()),
{
    let ghost before = list.deep_view();
    list.push(item);
    assert(list.deep_view() =~= before.push(item.deep_view()));
}

// ─── Lists of names ───────────────────────────────────────────────────────────

/// The list, with the name put behind it if it is not there.
pub open spec fn with_name(list: Seq<Seq<char>>, name: Seq<char>) -> Seq<Seq<char>> {
    if list.contains(name) {
        list
    } else {
        list.push(name)
    }
}

/// The list, with each of the names put behind it that is not there yet.
pub open spec fn with_names(list: Seq<Seq<char>>, names: Seq<Seq<char>>) -> Seq<Seq<char>>
    decreases names.len(),
{
    if names.len() == 0 {
        list
    } else {
        with_name(with_names(list, names.drop_last()), names.last())
    }
}

pub fn add_name(list: &mut Vec<String>, name: &String)
    ensures
        final(list).deep_view() == with_name(old(list).deep_view(), name@),
{
    if !list_contains(list.as_slice(), name) {
        append_item(list, name.clone());
    }
}

pub fn add_names(list: &mut Vec<String>, names: &Vec<String>)
    ensures
        final(list).deep_view() == with_names(old(list).deep_view(), names.deep_view()),
{
    let ghost before = list.deep_view();
    let ghost all = names.deep_view();
    assert(all.take(0).len() == 0);
    let mut i: usize = 0;
    while i < names.len()
        invariant
            i <= names@.len(),
            all == names.deep_view(),
            list.deep_view() == with_names(before, all.take(i as int)),
        decreases names@.len() - i,
    {
        assert(all[i as int] == names@[i as int]@);
        assert(all.take(i + 1).drop_last() =~= all.take(i as int));
        assert(all.take(i + 1).last() == all[i as int]);
        add_name(list, &names[i]);
        i += 1;
    }
    assert(all.take(all.len() as int) =~= all);
}

/// A list with one more name holds that name and what it held before.
pub proof fn lemma_with_name(list: Seq<Seq<char>>, name: Seq<char>)
    ensures
        with_name(list, name).contains(name),
        forall|x: Seq<char>| list.contains(x) ==> #[trigger] with_name(list, name).contains(x),
        forall|x: Seq<char>|
            #[trigger] with_name(list, name).contains(x) ==> list.contains(x) || x == name,
{
    let longer = list.push(name);
    assert(longer[list.len() as int] == name);
    assert forall|x: Seq<char>| list.contains(x) implies #[trigger] with_name(list, name).contains(
        x,
    ) by {
        let k = choose|k: int| 0 <= k < list.len() && list[k] == x;
        assert(longer[k] == x);
    }
    assert forall|x: Seq<char>| #[trigger] with_name(list, name).contains(x) implies list.contains(
        x,
    ) || x == name by {
        if !list.contains(name) {
            let k = choose|k: int| 0 <= k < longer.len() && longer[k] == x;
            if k < list.len() {
                assert(list[k] == x);
            }
        }
    }
}

/// A list in which no name stands twice stays so.
pub proof fn with_distinct_names(list: Seq<Seq<char>>, names: Seq<Seq<char>>)
    requires
        list.no_duplicates(),
    ensures
        with_names(list, names).no_duplicates(),
    decreases names.len(),
{
    if names.len() > 0 {
        with_distinct_names(list, names.drop_last());
    }
}

/// The union of two lists holds what stands in one of them.
pub proof fn with_names_is_union(list: Seq<Seq<char>>, names: Seq<Seq<char>>, x: Seq<char>)
    ensures
        with_names(list, names).contains(x) <==> list.contains(x) || names.contains(x),
    decreases names.len(),
{
    if names.len() > 0 {
        let front = names.drop_last();
        let before = with_names(list, front);
        with_names_is_union(list, front, x);
        assert(names =~= front.push(names.last()));
        let n = names.last();
        assert(names[names.len() - 1] == n);
        if front.contains(x) {
            let k = choose|k: int| 0 <= k < front.len() && front[k] == x;
            assert(names[k] == x);
        }
        if names.contains(x) && x != n {
            let k = choose|k: int| 0 <= k < names.len() && names[k] == x;
            assert(front[k] == x);
        }
        if !before.contains(n) {
            let after = before.push(n);
            assert(after[before.len() as int] == n);
            if before.contains(x) {
                let k = choose|k: int| 0 <= k < before.len() && before[k] == x;
                assert(after[k] == x);
            }
            if after.contains(x) && x != n {
                let k = choose|k: int| 0 <= k < after.len() && after[k] == x;
                assert(before[k] == x);
            }
        }
    }
}

/// What stood in the list stays where it was: new names come behind.
pub proof fn with_names_keeps_list(list: Seq<Seq<char>>, names: Seq<Seq<char>>)
    ensures
        list.len() <= with_names(list, names).len(),
        with_names(list, names).take(list.len() as int) == list,
    decreases names.len(),
{
    if names.len() > 0 {
        with_names_keeps_list(list, names.drop_last());
        let before = with_names(list, names.drop_last());
        let after = with_names(list, names);
        assert(after.take(list.len() as int) =~= before.take(list.len() as int));
    }
    assert(list.take(list.len() as int) =~= list);
}

/// Names that are all there already change nothing.
pub proof fn with_known_names(list: Seq<Seq<char>>, names: Seq<Seq<char>>)
    requires
        forall|x: Seq<char>| names.contains(x) ==> #[trigger] list.contains(x),
    ensures
        with_names(list, names) == list,
    decreases names.len(),
{
    if names.len() > 0 {
        let front = names.drop_last();
        assert forall|x: Seq<char>| front.contains(x) implies #[trigger] list.contains(x) by {
            let k = choose|k: int| 0 <= k < front.len() && front[k] == x;
            assert(names[k] == x);
            assert(names.contains(x));
        }
        with_known_names(list, front);
        assert(names[names.len() - 1] == names.last());
        assert(names.contains(names.last()));
        assert(list.contains(names.last()));
    }
}

/// Adding two lists of names one after the other is adding their union.
pub proof fn with_names_associates(a: Seq<Seq<char>>, b: Seq<Seq<char>>, c: Seq<Seq<char>>)
    ensures
        with_names(with_names(a, b), c) == with_names(a, with_names(b, c)),
    decreases c.len(),
{
    if c.len() > 0 {
        let front = c.drop_last();
        let x = c.last();
        with_names_associates(a, b, front);
        let inner = with_names(b, front);
        with_names_is_union(b, front, x);
        with_names_is_union(with_names(a, b), front, x);
        with_names_is_union(a, b, x);
        if !inner.contains(x) {
            assert(inner.push(x).drop_last() =~= inner);
        }
    }
}

// ─── A map keyed by text ──────────────────────────────────────────────────────

pub open spec fn key_at<V>(entries: Seq<(Seq<char>, V)>, key: Seq<char>, i: int) -> bool {
    0 <= i < entries.len() && entries[i].0 == key
}

/// Whether one of the entries has the key.
pub open spec fn has_key<V>(entries: Seq<(Seq<char>, V)>, key: Seq<char>) -> bool {
    exists|i: int| #[trigger] key_at(entries, key, i)
}

/// No two entries have the same key.
pub open spec fn keys_unique<V>(entries: Seq<(Seq<char>, V)>) -> bool {
    forall|i: int, j: int|
        0 <= i < entries.len() && 0 <= j < entries.len() && i != j ==> (#[trigger] entries[i]).0 != (
        #[trigger] entries[j]).0
}

/// The position of the first entry with the key, or the number of entries.
pub open spec fn key_index<V>(entries: Seq<(Seq<char>, V)>, key: Seq<char>) -> int
    decreases entries.len(),
{
    if entries.len() == 0 {
        0
    } else if entries[0].0 == key {
        0
    } else {
        1 + key_index(entries.drop_first(), key)
    }
}

/// What the entries give for the key.
pub open spec fn lookup<V>(entries: Seq<(Seq<char>, V)>, key: Seq<char>) -> Option<V> {
    let i = key_index(entries, key);
    if i < entries.len() {
        Some(entries[i].1)
    } else {
        None
    }
}

/// The entries with the key bound to the value: in its place if the key is there, else
/// behind all others.
pub open spec fn with_entry<V>(entries: Seq<(Seq<char>, V)>, key: Seq<char>, value: V) -> Seq<
    (Seq<char>, V),
> {
    let i = key_index(entries, key);
    if i < entries.len() {
        entries.update(i, (key, value))
    } else {
        entries.push((key, value))
    }
}

pub open spec fn keys<V>(entries: Seq<(Seq<char>, V)>) -> Seq<Seq<char>> {
    entries.map_values(|e: (Seq<char>, V)| e.0)
}

pub proof fn lemma_key_index<V>(entries: Seq<(Seq<char>, V)>, key: Seq<char>)
    ensures
        0 <= key_index(entries, key) <= entries.len(),
        has_key(entries, key) <==> key_index(entries, key) < entries.len(),
        key_index(entries, key) < entries.len() ==> entries[key_index(entries, key)].0 == key,
        forall|j: int| 0 <= j < key_index(entries, key) ==> (#[trigger] entries[j]).0 != key,
    decreases entries.len(),
{
    if entries.len() > 0 && entries[0].0 != key {
        let rest = entries.drop_first();
        lemma_key_index(rest, key);
        let k = key_index(rest, key);
        assert forall|j: int| 0 <= j < 1 + k implies (#[trigger] entries[j]).0 != key by {
            if j > 0 {
                assert(entries[j] == rest[j - 1]);
            }
        }
        if k < rest.len() {
            assert(key_at(entries, key, 1 + k));
        } else {
            assert forall|i: int| !#[trigger] key_at(entries, key, i) by {
                if 0 <= i < entries.len() {
                    assert(entries[i].0 != key);
                }
            }
        }
    } else if entries.len() > 0 {
        assert(key_at(entries, key, 0));
    }
}

/// Looking up a key that was just bound gives its value.
pub proof fn lookup_after_insert<V>(entries: Seq<(Seq<char>, V)>, key: Seq<char>, value: V)
    ensures
        lookup(with_entry(entries, key, value), key) == Some(value),
{
    let after = with_entry(entries, key, value);
    lemma_key_index(entries, key);
    lemma_key_index(after, key);
    let i = key_index(entries, key);
    assert(key_at(after, key, i));
    let k = key_index(after, key);
    if k < i {
        assert(after[k] == entries[k]);
    }
    assert(after[i].0 == key);
}

/// Binding a key leaves what the other keys are bound to.
pub proof fn lookup_of_other_key<V>(
    entries: Seq<(Seq<char>, V)>,
    key: Seq<char>,
    value: V,
    other: Seq<char>,
)
    requires
        other != key,
    ensures
        lookup(with_entry(entries, key, value), other) == lookup(entries, other),
{
    let after = with_entry(entries, key, value);
    lemma_key_index(entries, key);
    lemma_key_index(entries, other);
    lemma_key_index(after, other);
    let a = key_index(entries, other);
    let b = key_index(after, other);
    let i = key_index(entries, key);
    if b < after.len() && b < entries.len() {
        assert(b != i);
        assert(after[b] == entries[b]);
    }
    if a < entries.len() {
        assert(a != i);
        assert(after[a] == entries[a]);
    }
}

/// A map from text to values. The entries keep the order in which their keys first came.
#[derive(Debug)]
pub struct StringMap<V> {
    entries: Vec<(String, V)>,
}

impl<V: DeepView> DeepView for StringMap<V> {
    type V = Seq<(Seq<char>, V::V)>;

    closed spec fn deep_view(&self) -> Seq<(Seq<char>, V::V)> {
        self.entries.deep_view()
    }
}

impl<V: DeepView> StringMap<V> {
    /// The keys of a map are unique.
    pub open spec fn wf(&self) -> bool {
        keys_unique(self.deep_view())
    }

    pub fn new() -> (r: Self)
        ensures
            r.deep_view() == Seq::<(Seq<char>, V::V)>::empty(),
            r.wf(),
    {
        let r = StringMap { entries: Vec::new() };
        assert(r.deep_view() =~= Seq::<(Seq<char>, V::V)>::empty());
        r
    }

    pub fn len(&self) -> (n: usize)
        ensures
            n == self.deep_view().len(),
    {
        self.entries.len()
    }

    pub fn is_empty(&self) -> (b: bool)
        ensures
            b == (self.deep_view().len() == 0),
    {
        self.entries.len() == 0
    }

    /// The key of the entry at a position.
    pub fn key(&self, i: usize) -> (r: &str)
        requires
            i < self.deep_view().len(),
        ensures
            r@ == self.deep_view()[i as int].0,
    {
        self.entries[i].0.as_str()
    }

    /// The value of the entry at a position.
    pub fn value(&self, i: usize) -> (r: &V)
        requires
            i < self.deep_view().len(),
        ensures
            r.deep_view() == self.deep_view()[i as int].1,
    {
        &self.entries[i].1
    }

    fn position(&self, key: &str) -> (i: usize)
        ensures
            i == key_index(self.deep_view(), key@),
            i <= self.entries@.len() == self.deep_view().len(),
    {
        let mut i: usize = 0;
        let ghost all = self.deep_view();
        assert(all.subrange(0, all.len() as int) =~= all);
        while i < self.entries.len()
            invariant
                all == self.deep_view(),
                all.len() == self.entries@.len(),
                i <= self.entries@.len(),
                key_index(all, key@) == i + key_index(all.subrange(i as int, all.len() as int), key@),
            decreases self.entries@.len() - i,
        {
            let ghost rest = all.subrange(i as int, all.len() as int);
            assert(rest[0] == (self.entries@[i as int].0@, self.entries@[i as int].1.deep_view()));
            if crate::text::same(self.entries[i].0.as_str(), key) {
                return i;
            }
            assert(rest.drop_first() =~= all.subrange(i + 1, all.len() as int));
            i += 1;
        }
        i
    }

    pub fn get(&self, key: &str) -> (r: Option<&V>)
        ensures
            match r {
                Some(v) => lookup(self.deep_view(), key@) == Some(v.deep_view()),
                None => lookup(self.deep_view(), key@) is None,
            },
    {
        let i = self.position(key);
        if i < self.entries.len() {
            Some(&self.entries[i].1)
        } else {
            None
        }
    }

    pub fn contains_key(&self, key: &str) -> (b: bool)
        ensures
            b == has_key(self.deep_view(), key@),
    {
        let i = self.position(key);
        proof {
            lemma_key_index(self.deep_view(), key@);
        }
        i < self.entries.len()
    }

    pub fn insert(&mut self, key: String, value: V)
        ensures
            final(self).deep_view() == with_entry(old(self).deep_view(), key@, value.deep_view()),
            old(self).wf() ==> final(self).wf(),
    {
        let ghost before = self.deep_view();
        let ghost k = key@;
        let ghost v = value.deep_view();
        let i = self.position(key.as_str());
        proof {
            lemma_key_index(before, k);
        }
        if i < self.entries.len() {
            self.entries.set(i, (key, value));
            assert(self.deep_view() =~= before.update(i as int, (k, v)));
        } else {
            self.entries.push((key, value));
            assert(self.deep_view() =~= before.push((k, v)));
        }
        proof {
            if keys_unique(before) {
                let after = self.deep_view();
                assert forall|a: int, b: int|
                    0 <= a < after.len() && 0 <= b < after.len() && a != b implies (
                #[trigger] after[a]).0 != (#[trigger] after[b]).0 by {
                    if a < before.len() && b < before.len() {
                        assert(before[a].0 != before[b].0);
                    }
                }
            }
        }
    }

    /// The keys, in the order of the entries.
    pub fn keys(&self) -> (r: Vec<String>)
        ensures
            r.deep_view() == keys(self.deep_view()),
    {
        let mut out: Vec<String> = Vec::new();
        let mut i: usize = 0;
        let ghost all = keys(self.deep_view());
        while i < self.entries.len()
            invariant
                i <= self.entries@.len(),
                all == keys(self.deep_view()),
                all.len() == self.entries@.len(),
                out.deep_view() == all.take(i as int),
            decreases self.entries@.len() - i,
        {
            assert(self.deep_view()[i as int].0 == self.entries@[i as int].0@);
            append_item(&mut out, self.entries[i].0.clone());
            assert(all.take(i + 1) =~= all.take(i as int).push(all[i as int]));
            i += 1;
        }
        assert(all.take(all.len() as int) =~= all);
        out
    }
}

impl<V: Duplicate> Clone for StringMap<V> {
    fn clone(&self) -> (r: Self)
        ensures
            r.deep_view() == self.deep_view(),
    {
        self.duplicate()
    }
}

impl<V: Duplicate> Duplicate for StringMap<V> {
    fn duplicate(&self) -> (r: Self) {
        let mut out: Vec<(String, V)> = Vec::new();
        let mut i: usize = 0;
        while i < self.entries.len()
            invariant
                i <= self.entries@.len(),
                out@.len() == i,
                forall|j: int|
                    0 <= j < i ==> (#[trigger] out@[j]).deep_view() == self.entries@[j].deep_view(),
            decreases self.entries@.len() - i,
        {
            out.push((self.entries[i].0.duplicate(), self.entries[i].1.duplicate()));
            i += 1;
        }
        let r = StringMap { entries: out };
        assert(r.deep_view() =~= self.deep_view());
        r
    }
}

} // verus!
