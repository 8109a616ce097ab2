//! Snapshots that map resource names to identifiers, and name resolution.
use vstd::prelude::*;

verus! {

/// One resource of a listing: its name and the identifier the service gave it.
#[derive(Clone, Debug, PartialEq, Eq)]
pub struct ResourceEntry {
    pub name: String,
    pub id: String,
}

/// The character sequences of a sequence of strings.
pub open spec fn views(s: Seq<String>) -> Seq<Seq<char>> {
    s.map_values(|x: String| x@)
}

/// A listing as (name, identifier) pairs.
pub open spec fn listing_pairs(s: Seq<ResourceEntry>) -> Seq<(Seq<char>, Seq<char>)> {
    s.map_values(|e: ResourceEntry| (e.name@, e.id@))
}

/// The mapping obtained by inserting each pair of a listing in turn: a later
/// entry with the same name replaces an earlier one.
pub open spec fn fold_listing(s: Seq<(Seq<char>, Seq<char>)>) -> Map<Seq<char>, Seq<char>>
    decreases s.len(),
{
    if s.len() == 0 {
        Map::empty()
    } else {
        fold_listing(s.drop_last()).insert(s.last().0, s.last().1)
    }
}

/// When no entry at or after position `k` carries `n`, the fold of the whole
/// listing agrees on `n` with the fold of its first `k` entries.
proof fn lemma_fold_skip_suffix(s: Seq<(Seq<char>, Seq<char>)>, k: int, n: Seq<char>)
    requires
        0 <= k <= s.len(),
        forall|j: int| k <= j < s.len() ==> s[j].0 != n,
    ensures
        fold_listing(s).contains_key(n) == fold_listing(s.subrange(0, k)).contains_key(n),
        fold_listing(s).contains_key(n) ==> fold_listing(s)[n] == fold_listing(s.subrange(0, k))[n],
    decreases s.len(),
{
    if s.len() > k {
        let p = s.drop_last();
        assert(p.subrange(0, k) =~= s.subrange(0, k));
        lemma_fold_skip_suffix(p, k, n);
    } else {
        assert(s.subrange(0, k) =~= s);
    }
}

/// A name is in the fold exactly when some entry carries it, and then it maps
/// to the identifier of the last such entry.
proof fn lemma_fold_last(s: Seq<(Seq<char>, Seq<char>)>, k: int)
    requires
        0 <= k < s.len(),
        forall|j: int| k < j < s.len() ==> s[j].0 != s[k].0,
    ensures
        fold_listing(s).contains_key(s[k].0),
        fold_listing(s)[s[k].0] == s[k].1,
{
    let n = s[k].0;
    lemma_fold_skip_suffix(s, k + 1, n);
    let p = s.subrange(0, k + 1);
    assert(p.drop_last() =~= s.subrange(0, k));
}

/// A name that no entry carries is not in the fold.
proof fn lemma_fold_absent(s: Seq<(Seq<char>, Seq<char>)>, n: Seq<char>)
    requires
        forall|j: int| 0 <= j < s.len() ==> s[j].0 != n,
    ensures
        !fold_listing(s).contains_key(n),
{
    lemma_fold_skip_suffix(s, 0, n);
    assert(s.subrange(0, 0) =~= Seq::<(Seq<char>, Seq<char>)>::empty());
}

/// A snapshot of the resources of one kind, from resource name to identifier.
pub struct NameIndex {
    entries: Vec<ResourceEntry>,
}

impl View for NameIndex {
    type V = Map<Seq<char>, Seq<char>>;

    closed spec fn view(&self) -> Map<Seq<char>, Seq<char>> {
        fold_listing(listing_pairs(self.entries@))
    }
}

impl NameIndex {
    /// Folds a listing into an index; where two entries share a name the later wins.
    pub fn from_listing(listing: Vec<ResourceEntry>) -> (r: NameIndex)
        ensures
            r@ == fold_listing(listing_pairs(listing@)),
    {
        NameIndex { entries: listing }
    }

    /// The identifier recorded for `name`, if any.
    pub fn get(&self, name: &String) -> (r: Option<String>)
        ensures
            r is None <==> !self@.contains_key(name@),
            r is Some ==> r->0@ == self@[name@],
    {
        let ghost s = listing_pairs(self.entries@);
        let mut i: usize = self.entries.len();
        while i > 0
            invariant
                i <= self.entries.len(),
                s == listing_pairs(self.entries@),
                forall|j: int| i <= j < s.len() ==> s[j].0 != name@,
            decreases i,
        {
            i = i - 1;
            if self.entries[i].name == *name {
                proof {
                    lemma_fold_last(s, i as int);
                }
                return Some(self.entries[i].id.clone());
            }
        }
        proof {
            lemma_fold_absent(s, name@);
        }
        None
    }
}

/// Resolution of `names` through `index`: the identifiers in the order of the
/// names, or the first name that the index lacks.
pub open spec fn resolve(names: Seq<Seq<char>>, index: Map<Seq<char>, Seq<char>>) -> Result<
    Seq<Seq<char>>,
    Seq<char>,
>
    decreases names.len(),
{
    if names.len() == 0 {
        Ok(Seq::empty())
    } else {
        match resolve(names.drop_last(), index) {
            Err(missing) => Err(missing),
            Ok(ids) => if index.contains_key(names.last()) {
                Ok(ids.push(index[names.last()]))
            } else {
                Err(names.last())
            },
        }
    }
}

/// Resolution succeeds exactly when every name is in the index, and then maps
/// each name to its identifier in place; otherwise it reports the first
/// missing name.
pub proof fn lemma_resolve_characterized(names: Seq<Seq<char>>, index: Map<Seq<char>, Seq<char>>)
    ensures
        resolve(names, index) is Ok <==> forall|i: int|
            0 <= i < names.len() ==> index.contains_key(#[trigger] names[i]),
        resolve(names, index) is Ok ==> resolve(names, index)->Ok_0 == names.map_values(
            |n: Seq<char>| index[n],
        ),
        resolve(names, index) is Err ==> exists|k: int|
            0 <= k < names.len() && !index.contains_key(names[k]) && (forall|j: int|
                0 <= j < k ==> index.contains_key(#[trigger] names[j]))
                && resolve(names, index)->Err_0 == names[k],
    decreases names.len(),
{
    if names.len() > 0 {
        let p = names.drop_last();
        lemma_resolve_characterized(p, index);
        let last = names.len() - 1;
        match resolve(p, index) {
            Err(_) => {
                let k = choose|k: int|
                    0 <= k < p.len() && !index.contains_key(p[k]) && (forall|j: int|
                        0 <= j < k ==> index.contains_key(#[trigger] p[j]))
                        && resolve(p, index)->Err_0 == p[k];
                assert(names[k] == p[k]);
                assert(forall|j: int| 0 <= j < k ==> names[j] == p[j]);
            },
            Ok(ids) => {
                assert(forall|i: int| 0 <= i < last ==> names[i] == p[i]);
                if index.contains_key(names[last]) {
                    assert(ids.push(index[names[last]]) =~= names.map_values(
                        |n: Seq<char>| index[n],
                    ));
                } else {
                    assert(forall|j: int| 0 <= j < last ==> index.contains_key(#[trigger] names[j])
                        ) by {
                        assert(forall|j: int| 0 <= j < last ==> names[j] == p[j]);
                    }
                }
            },
        }
    }
}

/// Why a stage's targets could not be resolved: the first name that the
/// applicable index lacks.
#[derive(Clone, Debug, PartialEq, Eq)]
pub struct NameNotFound {
    pub name: String,
}

/// Looks up every name, in order. All or nothing: the first name that the index
/// lacks is reported and no identifiers are returned.
pub fn names_to_ids(names: &Vec<String>, name_to_id_map: &NameIndex) -> (r: Result<
    Vec<String>,
    NameNotFound,
>)
    ensures
        match r {
            Ok(ids) => resolve(views(names@), name_to_id_map@) == Ok::<Seq<Seq<char>>, Seq<char>>(
                views(ids@),
            ),
            Err(e) => resolve(views(names@), name_to_id_map@) == Err::<Seq<Seq<char>>, Seq<char>>(
                e.name@,
            ),
        },
        r is Ok <==> forall|i: int|
            0 <= i < names.len() ==> name_to_id_map@.contains_key(#[trigger] names@[i]@),
        r is Ok ==> r->Ok_0.len() == names.len() && forall|i: int|
            0 <= i < names.len() ==> #[trigger] r->Ok_0@[i]@ == name_to_id_map@[names@[i]@],
        r is Err ==> exists|k: int|
            0 <= k < names.len() && !name_to_id_map@.contains_key(names@[k]@) && (forall|j: int|
                0 <= j < k ==> name_to_id_map@.contains_key(#[trigger] names@[j]@))
                && r->Err_0.name@ == names@[k]@,
{
    let ghost index = name_to_id_map@;
    let ghost all = views(names@);
    let mut ids: Vec<String> = Vec::new();
    let mut i: usize = 0;
    assert(all.subrange(0, 0) =~= Seq::<Seq<char>>::empty());
    assert(views(ids@) =~= Seq::<Seq<char>>::empty());
    while i < names.len()
        invariant
            i <= names.len(),
            all == views(names@),
            index == name_to_id_map@,
            resolve(all.subrange(0, i as int), index) == Ok::<Seq<Seq<char>>, Seq<char>>(
                views(ids@),
            ),
        decreases names.len() - i,
    {
        let ghost pre = all.subrange(0, i as int);
        assert(all.subrange(0, i + 1).drop_last() =~= pre);
        match name_to_id_map.get(&names[i]) {
            Some(id) => {
                let ghost before = ids@;
                ids.push(id);
                assert(views(ids@) =~= views(before).push(index[all[i as int]]));
            },
            None => {
                proof {
                    lemma_resolve_characterized(pre, index);
                    lemma_resolve_characterized(all, index);
                    assert(!index.contains_key(all[i as int]));
                    assert(forall|j: int| 0 <= j < i ==> pre[j] == all[j]);
                    let k = choose|k: int|
                        0 <= k < all.len() && !index.contains_key(all[k]) && (forall|j: int|
                            0 <= j < k ==> index.contains_key(#[trigger] all[j]))
                            && resolve(all, index)->Err_0 == all[k];
                    if k < i {
                        assert(pre[k] == all[k]);
                    }
                    if k > i {
                        assert(index.contains_key(all[i as int]));
                    }
                    assert forall|j: int| 0 <= j < names.len() implies all[j] == #[trigger] names@[j]@ by {}
                }
                return Err(NameNotFound { name: names[i].clone() });
            },
        }
        i = i + 1;
    }
    assert(all.subrange(0, i as int) =~= all);
    proof {
        lemma_resolve_characterized(all, index);
        assert(views(ids@).len() == ids@.len());
        assert(all.len() == names@.len());
        assert forall|j: int| 0 <= j < names.len() implies index.contains_key(
            #[trigger] names@[j]@,
        ) && ids@[j]@ == index[names@[j]@] by {
            assert(all[j] == names@[j]@);
            assert(views(ids@)[j] == ids@[j]@);
        }
    }
    Ok(ids)
}

} // verus!
