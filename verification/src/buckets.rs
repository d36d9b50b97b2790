//! Lists of ids, sorted into one bucket per service.

use std::collections::HashMap;
use std::hash::Hash;
use vstd::prelude::*;
use vstd::std_specs::hash::*;
use vstd::std_specs::iter::IteratorSpec;

use crate::service_flags::ServiceFlags;

verus! {

broadcast use group_hash_axioms;

/// Something an address or a peer is known by.
pub trait Id: Copy {
    /// Whether both are the same id.
    fn same(&self, other: &Self) -> (r: bool)
        ensures
            r == (*self == *other),
    ;
}

impl Id for usize {
    fn same(&self, other: &usize) -> (r: bool) {
        *self == *other
    }
}

impl Id for u32 {
    fn same(&self, other: &u32) -> (r: bool) {
        *self == *other
    }
}

/// A list of ids without any occurrence of `id`, the rest in their order.
pub open spec fn without<T>(ids: Seq<T>, id: T) -> Seq<T> {
    ids.filter(|x: T| x != id)
}

/// A list of ids with `id` added at its end, unless it is in the list already.
pub open spec fn with_id<T>(ids: Seq<T>, id: T) -> Seq<T> {
    if ids.contains(id) {
        ids
    } else {
        ids.push(id)
    }
}

/// The bucket of a service; an empty one when there is none.
pub open spec fn bucket<T>(buckets: Map<u64, Seq<T>>, service: ServiceFlags) -> Seq<T> {
    if buckets.contains_key(service.0) {
        buckets[service.0]
    } else {
        Seq::empty()
    }
}

/// All the buckets without any occurrence of `id`.
pub open spec fn buckets_without<T>(buckets: Map<u64, Seq<T>>, id: T) -> Map<u64, Seq<T>> {
    buckets.map_values(|ids: Seq<T>| without(ids, id))
}

/// All the buckets without `id` in those of services that are not among `flags`.
pub open spec fn buckets_offered<T>(
    buckets: Map<u64, Seq<T>>,
    id: T,
    flags: ServiceFlags,
) -> Map<u64, Seq<T>> {
    buckets.map_entries(
        |service: u64, ids: Seq<T>|
            if flags.includes(ServiceFlags(service)) {
                ids
            } else {
                without(ids, id)
            },
    )
}

/// The keys of a map, each once.
pub(crate) fn keys_of<K: Copy + Eq + Hash, V>(map: &HashMap<K, V>) -> (r: Vec<K>)
    requires
        obeys_key_model::<K>(),
    ensures
        r@.no_duplicates(),
        r@.to_set() == map@.dom(),
        r@.len() == map@.len(),
{
    let mut keys: Vec<K> = Vec::new();
    let ghost all = map.keys().remaining();
    for key in it: map.keys()
        invariant
            it.seq() == all,
            keys@ == all.unref().take(it.index()),
    {
        keys.push(*key);
        assert(keys@ =~= all.unref().take(it.index() + 1));
    }
    assert(keys@ =~= all.unref());
    keys
}

/// Whether `id` is in the list.
pub fn contains_id<T: Id>(ids: &Vec<T>, id: T) -> (r: bool)
    ensures
        r == ids@.contains(id),
{
    let mut i: usize = 0;
    while i < ids.len()
        invariant
            i <= ids@.len(),
            forall|j: int| 0 <= j < i ==> ids@[j] != id,
        decreases ids@.len() - i,
    {
        if ids[i].same(&id) {
            return true;
        }
        i = i + 1;
    }
    false
}

/// Takes every occurrence of `id` out of the list.
pub fn remove_id<T: Id>(ids: &mut Vec<T>, id: T)
    ensures
        final(ids)@ == without(old(ids)@, id),
{
    let mut kept: Vec<T> = Vec::new();
    let mut i: usize = 0;
    proof {
        reveal(Seq::filter);
    }
    while i < ids.len()
        invariant
            i <= ids@.len(),
            ids@ == old(ids)@,
            kept@ == without(ids@.take(i as int), id),
        decreases ids@.len() - i,
    {
        proof {
            reveal(Seq::filter);
            assert(ids@.take(i + 1).drop_last() =~= ids@.take(i as int));
        }
        if !ids[i].same(&id) {
            kept.push(ids[i]);
        }
        i = i + 1;
    }
    assert(ids@.take(i as int) =~= ids@);
    *ids = kept;
}

/// Ids, sorted into one bucket per service.
pub struct Buckets<T> {
    /// The bucket of each service.
    pub map: HashMap<u64, Vec<T>>,
}

impl<T> View for Buckets<T> {
    type V = Map<u64, Seq<T>>;

    open spec fn view(&self) -> Map<u64, Seq<T>> {
        self.map@.map_values(|ids: Vec<T>| ids@)
    }
}

impl<T: Id> Clone for Buckets<T> {
    fn clone(&self) -> (r: Self)
        ensures
            r@ == self@,
    {
        Buckets { map: self.map.clone() }
    }
}

impl<T: Id> Buckets<T> {
    /// No bucket at all.
    pub fn new() -> (r: Self)
        ensures
            r@ == Map::<u64, Seq<T>>::empty(),
    {
        let r = Buckets { map: HashMap::new() };
        assert(r@ =~= Map::<u64, Seq<T>>::empty());
        r
    }

    /// The bucket of a service, if there is one.
    pub fn get(&self, service: ServiceFlags) -> (r: Option<&Vec<T>>)
        ensures
            match r {
                Some(ids) => self@.contains_key(service.0) && ids@ == self@[service.0],
                None => !self@.contains_key(service.0),
            },
    {
        self.map.get(&service.0)
    }

    /// Takes the bucket of a service out, an empty one when there is none.
    fn take(&mut self, service: ServiceFlags) -> (r: Vec<T>)
        ensures
            r@ == bucket(old(self)@, service),
            final(self)@ == old(self)@.remove(service.0),
    {
        let r = match self.map.remove(&service.0) {
            Some(ids) => ids,
            None => Vec::new(),
        };
        assert(self@ =~= old(self)@.remove(service.0));
        r
    }

    /// Puts a bucket in the place of the one a service had.
    pub fn put(&mut self, service: ServiceFlags, ids: Vec<T>)
        ensures
            final(self)@ == old(self)@.insert(service.0, ids@),
    {
        self.map.insert(service.0, ids);
        assert(self@ =~= old(self)@.insert(service.0, ids@));
    }

    /// Makes sure a service has a bucket.
    pub fn ensure_bucket(&mut self, service: ServiceFlags)
        ensures
            final(self)@ == old(self)@.insert(service.0, bucket(old(self)@, service)),
    {
        let ids = self.take(service);
        self.put(service, ids);
        assert(self@ =~= old(self)@.insert(service.0, bucket(old(self)@, service)));
    }

    /// Adds an id to the bucket of a service, unless it is in there.
    pub fn add_once(&mut self, service: ServiceFlags, id: T)
        ensures
            final(self)@ == old(self)@.insert(service.0, with_id(bucket(old(self)@, service), id)),
    {
        let mut ids = self.take(service);
        if !contains_id(&ids, id) {
            ids.push(id);
        }
        self.put(service, ids);
        assert(self@ =~= old(self)@.insert(service.0, with_id(bucket(old(self)@, service), id)));
    }

    /// Adds an id at the end of the bucket of a service.
    pub fn push(&mut self, service: ServiceFlags, id: T)
        ensures
            final(self)@ == old(self)@.insert(service.0, bucket(old(self)@, service).push(id)),
    {
        let mut ids = self.take(service);
        ids.push(id);
        self.put(service, ids);
        assert(self@ =~= old(self)@.insert(service.0, bucket(old(self)@, service).push(id)));
    }

    /// Takes an id out of the bucket of a service, if there is one.
    pub fn remove_from(&mut self, service: ServiceFlags, id: T)
        ensures
            final(self)@ == if old(self)@.contains_key(service.0) {
                old(self)@.insert(service.0, without(old(self)@[service.0], id))
            } else {
                old(self)@
            },
    {
        if self.map.contains_key(&service.0) {
            let mut ids = self.take(service);
            remove_id(&mut ids, id);
            self.put(service, ids);
            assert(self@ =~= old(self)@.insert(
                service.0,
                without(old(self)@[service.0], id),
            ));
        }
    }

    /// Takes an id out of every bucket.
    pub fn remove_everywhere(&mut self, id: T)
        ensures
            final(self)@ == buckets_without(old(self)@, id),
    {
        let services = keys_of(&self.map);
        let mut i: usize = 0;
        while i < services.len()
            invariant
                i <= services@.len(),
                services@.no_duplicates(),
                services@.to_set() == old(self)@.dom(),
                self@.dom() == old(self)@.dom(),
                forall|j: int|
                    0 <= j < i ==> #[trigger] self@[services@[j]] == without(
                        old(self)@[services@[j]],
                        id,
                    ),
                forall|j: int|
                    i <= j < services@.len() ==> #[trigger] self@[services@[j]] == old(
                        self,
                    )@[services@[j]],
            decreases services@.len() - i,
        {
            assert(services@.to_set().contains(services@[i as int]));
            let ghost before = self@;
            self.remove_from(ServiceFlags(services[i]), id);
            assert(self@.dom() =~= before.dom());
            i = i + 1;
        }
        assert(self@ =~= buckets_without(old(self)@, id)) by {
            assert forall|s: u64| old(self)@.contains_key(s) implies self@[s] == without(
                old(self)@[s],
                id,
            ) by {
                assert(services@.to_set().contains(s));
                let j = choose|j: int| 0 <= j < services@.len() && services@[j] == s;
                assert(self@[services@[j]] == without(old(self)@[services@[j]], id));
            }
        }
    }

    /// Takes an id out of the buckets of services that are not among `flags`.
    pub fn keep_offered(&mut self, id: T, flags: ServiceFlags)
        ensures
            final(self)@ == buckets_offered(old(self)@, id, flags),
    {
        let ghost goal = buckets_offered(old(self)@, id, flags);
        let services = keys_of(&self.map);
        let mut i: usize = 0;
        while i < services.len()
            invariant
                i <= services@.len(),
                goal == buckets_offered(old(self)@, id, flags),
                services@.no_duplicates(),
                services@.to_set() == old(self)@.dom(),
                self@.dom() == old(self)@.dom(),
                forall|j: int| 0 <= j < i ==> #[trigger] self@[services@[j]] == goal[services@[j]],
                forall|j: int|
                    i <= j < services@.len() ==> #[trigger] self@[services@[j]] == old(
                        self,
                    )@[services@[j]],
            decreases services@.len() - i,
        {
            assert(services@.to_set().contains(services@[i as int]));
            let ghost before = self@;
            if !flags.has(ServiceFlags(services[i])) {
                self.remove_from(ServiceFlags(services[i]), id);
            }
            assert(self@.dom() =~= before.dom());
            i = i + 1;
        }
        assert(self@ =~= goal) by {
            assert forall|s: u64| old(self)@.contains_key(s) implies self@[s] == goal[s] by {
                assert(services@.to_set().contains(s));
                let j = choose|j: int| 0 <= j < services@.len() && services@[j] == s;
                assert(self@[services@[j]] == goal[services@[j]]);
            }
        }
    }
}

/// A list without an id does not hold it, and holds all the others that it held.
pub proof fn without_drops_only_that_id<T>(ids: Seq<T>, id: T)
    ensures
        !without(ids, id).contains(id),
        forall|x: T| x != id ==> (without(ids, id).contains(x) <==> ids.contains(x)),
        ids.no_duplicates() ==> without(ids, id).no_duplicates(),
        without(ids, id).len() <= ids.len(),
        !ids.contains(id) ==> without(ids, id) == ids,
    decreases ids.len(),
{
    reveal(Seq::filter);
    if ids.len() > 0 {
        let rest = ids.drop_last();
        without_drops_only_that_id(rest, id);
        assert(ids =~= rest.push(ids.last()));
        let kept = without(rest, id);
        let all = without(ids, id);
        assert(all == if ids.last() != id { kept.push(ids.last()) } else { kept });
        assert forall|x: T| ids.contains(x) <==> rest.contains(x) || x == ids.last() by {
            if ids.contains(x) {
                let i = choose|i: int| 0 <= i < ids.len() && ids[i] == x;
                if i < rest.len() {
                    assert(rest[i] == x);
                }
            }
            if rest.contains(x) {
                let i = choose|i: int| 0 <= i < rest.len() && rest[i] == x;
                assert(ids[i] == x);
            }
            if x == ids.last() {
                assert(ids[ids.len() - 1] == x);
            }
        }
        if ids.last() != id {
            assert forall|x: T| all.contains(x) <==> kept.contains(x) || x == ids.last() by {
                if all.contains(x) {
                    let i = choose|i: int| 0 <= i < all.len() && all[i] == x;
                    if i < kept.len() {
                        assert(kept[i] == x);
                    }
                }
                if kept.contains(x) {
                    let i = choose|i: int| 0 <= i < kept.len() && kept[i] == x;
                    assert(all[i] == x);
                }
                if x == ids.last() {
                    assert(all[all.len() - 1] == x);
                }
            }
        }
        if ids.no_duplicates() {
            assert(rest.no_duplicates());
            if ids.last() != id {
                assert(!rest.contains(ids.last())) by {
                    if rest.contains(ids.last()) {
                        let i = choose|i: int| 0 <= i < rest.len() && rest[i] == ids.last();
                        assert(ids[i] == ids[ids.len() - 1]);
                    }
                }
                assert(all.no_duplicates()) by {
                    assert forall|i: int, j: int|
                        0 <= i < all.len() && 0 <= j < all.len() && i != j implies all[i]
                        != all[j] by {
                        if i < kept.len() && j < kept.len() {
                            assert(kept[i] != kept[j]);
                        } else if i < kept.len() {
                            assert(kept.contains(kept[i]));
                        } else {
                            assert(kept.contains(kept[j]));
                        }
                    }
                }
            }
        }
        if !ids.contains(id) {
            assert(all =~= ids);
        }
    } else {
        assert(without(ids, id) =~= ids);
    }
}

/// What passes a filter is what is in the list and passes, and nothing twice that was not there
/// twice.
pub(crate) proof fn lemma_filtered<T>(ids: Seq<T>, pred: spec_fn(T) -> bool)
    ensures
        forall|x: T| #[trigger] ids.filter(pred).contains(x) <==> ids.contains(x) && pred(x),
        ids.no_duplicates() ==> ids.filter(pred).no_duplicates(),
    decreases ids.len(),
{
    reveal(Seq::filter);
    if ids.len() > 0 {
        let rest = ids.drop_last();
        let last = ids.last();
        let kept = rest.filter(pred);
        lemma_filtered(rest, pred);
        assert(ids =~= rest.push(last));
        assert forall|x: T| #[trigger] ids.filter(pred).contains(x) <==> ids.contains(x) && pred(
            x,
        ) by {
            lemma_push_contains(rest, last, x);
            lemma_push_contains(kept, last, x);
        }
        if ids.no_duplicates() {
            if rest.contains(last) {
                let i = choose|i: int| 0 <= i < rest.len() && rest[i] == last;
                assert(ids[i] == ids[ids.len() - 1]);
            }
            assert(!kept.contains(last));
        }
    }
}

/// Filtering what passes another filter keeps what passes both.
pub(crate) proof fn lemma_filtered_twice<T>(
    ids: Seq<T>,
    first: spec_fn(T) -> bool,
    second: spec_fn(T) -> bool,
    both: spec_fn(T) -> bool,
)
    requires
        forall|x: T| #[trigger] both(x) <==> first(x) && second(x),
    ensures
        ids.filter(first).filter(second) == ids.filter(both),
    decreases ids.len(),
{
    reveal(Seq::filter);
    if ids.len() > 0 {
        let rest = ids.drop_last();
        let last = ids.last();
        lemma_filtered_twice(rest, first, second, both);
        assert(both(last) <==> first(last) && second(last));
        if first(last) {
            let kept = rest.filter(first);
            assert(kept.push(last).drop_last() =~= kept);
        }
    }
}

/// What a list contains after something was added at its end.
pub(crate) proof fn lemma_push_contains<T>(s: Seq<T>, x: T, y: T)
    ensures
        s.push(x).contains(y) <==> s.contains(y) || x == y,
{
    if s.push(x).contains(y) {
        let i = choose|i: int| 0 <= i < s.push(x).len() && s.push(x)[i] == y;
        if i < s.len() {
            assert(s[i] == y);
        }
    }
    if s.contains(y) {
        let i = choose|i: int| 0 <= i < s.len() && s[i] == y;
        assert(s.push(x)[i] == y);
    }
    assert(s.push(x)[s.len() as int] == x);
}

} // verus!
