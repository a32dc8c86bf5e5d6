use std::collections::HashMap;
use vstd::prelude::*;

verus! {

broadcast use vstd::std_specs::hash::group_hash_axioms;

/// Quantities of products, by product id.
pub type Stock = HashMap<u64, u64>;

/// `stock` with the quantities of `add` added to it, product by product; a product that
/// `stock` lacks gets the quantity of `add`.
pub open spec fn stock_plus(stock: Map<u64, u64>, add: Map<u64, u64>) -> Map<u64, u64> {
    Map::new(
        |p: u64| stock.contains_key(p) || add.contains_key(p),
        |p: u64|
            if add.contains_key(p) {
                if stock.contains_key(p) {
                    (stock[p] + add[p]) as u64
                } else {
                    add[p]
                }
            } else {
                stock[p]
            },
    )
}

/// Adding `add` to `stock` keeps every quantity within `u64`.
pub open spec fn fits_plus(stock: Map<u64, u64>, add: Map<u64, u64>) -> bool {
    forall|p: u64|
        #![trigger add.contains_key(p), stock.contains_key(p)]
        add.contains_key(p) && stock.contains_key(p) ==> stock[p] + add[p] <= u64::MAX
}

/// `stock` holds every product of `need`, at least in the quantity that `need` asks.
pub open spec fn covers(stock: Map<u64, u64>, need: Map<u64, u64>) -> bool {
    forall|p: u64| #[trigger] need.contains_key(p) ==> stock.contains_key(p) && need[p] <= stock[p]
}

/// `stock` with the quantities of `sub` taken away, product by product.
pub open spec fn stock_minus(stock: Map<u64, u64>, sub: Map<u64, u64>) -> Map<u64, u64> {
    Map::new(
        |p: u64| stock.contains_key(p),
        |p: u64|
            if sub.contains_key(p) {
                (stock[p] - sub[p]) as u64
            } else {
                stock[p]
            },
    )
}

/// The part of `wanted` that `stock` can give: each wanted product that `stock`
/// holds in at least the wanted quantity, with that quantity.
pub open spec fn reservable(stock: Map<u64, u64>, wanted: Map<u64, u64>) -> Map<u64, u64> {
    Map::new(
        |p: u64| wanted.contains_key(p) && stock.contains_key(p) && wanted[p] <= stock[p],
        |p: u64| wanted[p],
    )
}

/// The entries of a map, in the order that the map hands them out.
pub fn entries(m: &HashMap<u64, u64>) -> (v: Vec<(u64, u64)>)
    ensures
        v@.len() == m@.dom().len(),
        forall|i: int| 0 <= i < v@.len() ==> m@.contains_key(#[trigger] v@[i].0) && m@[v@[i].0] == v@[i].1,
        forall|k: u64| #[trigger] m@.contains_key(k) ==> exists|i: int| 0 <= i < v@.len() && v@[i].0 == k,
        forall|i: int, j: int| 0 <= i < j < v@.len() ==> v@[i].0 != v@[j].0,
{
    let mut v: Vec<(u64, u64)> = Vec::new();
    let ghost rem = vstd::std_specs::iter::IteratorSpec::remaining(&vstd::std_specs::hash::spec_hash_map_iter(m));
    for (k, x) in it: m.iter()
        invariant
            rem == vstd::std_specs::iter::IteratorSpec::remaining(&vstd::std_specs::hash::spec_hash_map_iter(m)),
            it.seq() == rem,
            rem.no_duplicates(),
            v@.len() == it.index(),
            forall|i: int| 0 <= i < v@.len() ==> (#[trigger] v@[i]) == (*it.seq()[i].0, *it.seq()[i].1),
    {
        v.push((*k, *x));
    }
    assert forall|k: u64| #[trigger] m@.contains_key(k) implies exists|i: int|
        0 <= i < v@.len() && v@[i].0 == k by {
        assert(rem.contains((&k, &m@[k])));
        let i = choose|i: int| 0 <= i < rem.len() && rem[i] == (&k, &m@[k]);
        assert(v@[i].0 == k);
    }
    assert forall|i: int, j: int| 0 <= i < j < v@.len() implies v@[i].0 != v@[j].0 by {
        if v@[i].0 == v@[j].0 {
            assert(m@.contains_key(*rem[i].0) && m@[*rem[i].0] == *rem[i].1);
            assert(m@.contains_key(*rem[j].0) && m@[*rem[j].0] == *rem[j].1);
            assert(rem[i] == rem[j]);
        }
    }
    v
}

/// The keys of a map, each once, in the order that the map hands them out.
pub fn key_list<V>(m: &HashMap<u64, V>) -> (v: Vec<u64>)
    ensures
        v@.no_duplicates(),
        forall|k: u64| #[trigger] m@.contains_key(k) <==> v@.contains(k),
{
    let mut v: Vec<u64> = Vec::new();
    let ghost rem = vstd::std_specs::iter::IteratorSpec::remaining(
        &vstd::std_specs::hash::spec_keys_iter(m),
    );
    for k in it: m.keys()
        invariant
            rem == vstd::std_specs::iter::IteratorSpec::remaining(
                &vstd::std_specs::hash::spec_keys_iter(m),
            ),
            it.seq() == rem,
            rem.no_duplicates(),
            rem.unref().to_set() == m@.dom(),
            v@.len() == it.index(),
            forall|i: int| 0 <= i < v@.len() ==> (#[trigger] v@[i]) == *it.seq()[i],
    {
        v.push(*k);
    }
    assert(v@ =~= rem.unref());
    assert forall|k: u64| #[trigger] m@.contains_key(k) <==> v@.contains(k) by {
        if v@.contains(k) {
            assert(rem.unref().to_set().contains(k));
        }
        if m@.contains_key(k) {
            assert(rem.unref().to_set().contains(k));
        }
    }
    assert forall|i: int, j: int| 0 <= i < v@.len() && 0 <= j < v@.len() && i != j implies v@[i]
        != v@[j] by {
        if v@[i] == v@[j] {
            assert(rem[i] == rem[j]);
        }
    }
    v
}

/// The keys of a map keyed by 128-bit ids, each once, in the order that the map hands them out.
pub fn key_list_u128<V>(m: &HashMap<u128, V>) -> (v: Vec<u128>)
    ensures
        v@.no_duplicates(),
        forall|k: u128| #[trigger] m@.contains_key(k) <==> v@.contains(k),
{
    let mut v: Vec<u128> = Vec::new();
    let ghost rem = vstd::std_specs::iter::IteratorSpec::remaining(
        &vstd::std_specs::hash::spec_keys_iter(m),
    );
    for k in it: m.keys()
        invariant
            rem == vstd::std_specs::iter::IteratorSpec::remaining(
                &vstd::std_specs::hash::spec_keys_iter(m),
            ),
            it.seq() == rem,
            rem.no_duplicates(),
            rem.unref().to_set() == m@.dom(),
            v@.len() == it.index(),
            forall|i: int| 0 <= i < v@.len() ==> (#[trigger] v@[i]) == *it.seq()[i],
    {
        v.push(*k);
    }
    assert(v@ =~= rem.unref());
    assert forall|k: u128| #[trigger] m@.contains_key(k) <==> v@.contains(k) by {
        if v@.contains(k) {
            assert(rem.unref().to_set().contains(k));
        }
        if m@.contains_key(k) {
            assert(rem.unref().to_set().contains(k));
        }
    }
    assert forall|i: int, j: int| 0 <= i < v@.len() && 0 <= j < v@.len() && i != j implies v@[i]
        != v@[j] by {
        if v@[i] == v@[j] {
            assert(rem[i] == rem[j]);
        }
    }
    v
}

/// Adds the quantities of `add` to `stock`, product by product.
pub fn add_stock_to(stock: &mut Stock, add: &Stock)
    requires
        fits_plus(old(stock)@, add@),
    ensures
        final(stock)@ == stock_plus(old(stock)@, add@),
{
    let v = entries(add);
    let ghost processed: Set<u64> = Set::empty();
    let mut i: usize = 0;
    while i < v.len()
        invariant
            i <= v@.len(),
            v@.len() == add@.dom().len(),
            forall|j: int| 0 <= j < v@.len() ==> add@.contains_key(#[trigger] v@[j].0) && add@[v@[j].0] == v@[j].1,
            forall|k: u64| #[trigger] add@.contains_key(k) ==> exists|j: int| 0 <= j < v@.len() && v@[j].0 == k,
            forall|a: int, b: int| 0 <= a < b < v@.len() ==> v@[a].0 != v@[b].0,
            forall|j: int| 0 <= j < i ==> processed.contains(#[trigger] v@[j].0),
            forall|j: int| i <= j < v@.len() ==> !processed.contains(#[trigger] v@[j].0),
            processed.subset_of(add@.dom()),
            fits_plus(old(stock)@, add@),
            stock@ == stock_plus(old(stock)@, add@.restrict(processed)),
        decreases v@.len() - i,
    {
        let (k, q) = v[i];
        let cur = stock.get(&k);
        let n = match cur {
            Some(c) => *c + q,
            None => q,
        };
        stock.insert(k, n);
        proof {
            processed = processed.insert(k);
            assert(stock@ =~= stock_plus(old(stock)@, add@.restrict(processed)));
        }
        i = i + 1;
    }
    proof {
        assert(processed =~= add@.dom());
        assert(add@.restrict(processed) =~= add@);
    }
}

/// Takes the quantities of `sub` away from `stock`, product by product.
pub fn take_stock_from(stock: &mut Stock, sub: &Stock)
    requires
        covers(old(stock)@, sub@),
    ensures
        final(stock)@ == stock_minus(old(stock)@, sub@),
{
    let v = entries(sub);
    let ghost processed: Set<u64> = Set::empty();
    let mut i: usize = 0;
    while i < v.len()
        invariant
            i <= v@.len(),
            v@.len() == sub@.dom().len(),
            forall|j: int| 0 <= j < v@.len() ==> sub@.contains_key(#[trigger] v@[j].0) && sub@[v@[j].0] == v@[j].1,
            forall|k: u64| #[trigger] sub@.contains_key(k) ==> exists|j: int| 0 <= j < v@.len() && v@[j].0 == k,
            forall|a: int, b: int| 0 <= a < b < v@.len() ==> v@[a].0 != v@[b].0,
            forall|j: int| 0 <= j < i ==> processed.contains(#[trigger] v@[j].0),
            forall|j: int| i <= j < v@.len() ==> !processed.contains(#[trigger] v@[j].0),
            processed.subset_of(sub@.dom()),
            covers(old(stock)@, sub@),
            stock@ == stock_minus(old(stock)@, sub@.restrict(processed)),
        decreases v@.len() - i,
    {
        let (k, q) = v[i];
        let c = *stock.get(&k).unwrap();
        stock.insert(k, c - q);
        proof {
            processed = processed.insert(k);
            assert(stock@ =~= stock_minus(old(stock)@, sub@.restrict(processed)));
        }
        i = i + 1;
    }
    proof {
        assert(processed =~= sub@.dom());
        assert(sub@.restrict(processed) =~= sub@);
    }
}

/// True when adding `add` to `stock` keeps every quantity within `u64`.
pub fn fits_plus_check(stock: &Stock, add: &Stock) -> (r: bool)
    ensures
        r == fits_plus(stock@, add@),
{
    let v = entries(add);
    let mut i: usize = 0;
    while i < v.len()
        invariant
            i <= v@.len(),
            forall|j: int| 0 <= j < v@.len() ==> add@.contains_key(#[trigger] v@[j].0) && add@[v@[j].0] == v@[j].1,
            forall|k: u64| #[trigger] add@.contains_key(k) ==> exists|j: int| 0 <= j < v@.len() && v@[j].0 == k,
            forall|j: int|
                0 <= j < i && stock@.contains_key(#[trigger] v@[j].0) ==> stock@[v@[j].0] + v@[j].1
                    <= u64::MAX,
        decreases v@.len() - i,
    {
        let (k, q) = v[i];
        match stock.get(&k) {
            Some(c) => {
                if *c > u64::MAX - q {
                    return false;
                }
            },
            None => {},
        }
        i = i + 1;
    }
    assert forall|p: u64|
        #![trigger add@.contains_key(p), stock@.contains_key(p)]
        add@.contains_key(p) && stock@.contains_key(p) implies stock@[p] + add@[p] <= u64::MAX by {
        let j = choose|j: int| 0 <= j < v@.len() && v@[j].0 == p;
    }
    true
}

/// True when every product of `add` is a product of `stock`.
pub fn keys_within(stock: &Stock, add: &Stock) -> (r: bool)
    ensures
        r == add@.dom().subset_of(stock@.dom()),
{
    let v = entries(add);
    let mut i: usize = 0;
    while i < v.len()
        invariant
            i <= v@.len(),
            forall|j: int| 0 <= j < v@.len() ==> add@.contains_key(#[trigger] v@[j].0) && add@[v@[j].0] == v@[j].1,
            forall|k: u64| #[trigger] add@.contains_key(k) ==> exists|j: int| 0 <= j < v@.len() && v@[j].0 == k,
            forall|j: int| 0 <= j < i ==> stock@.contains_key(#[trigger] v@[j].0),
        decreases v@.len() - i,
    {
        if !stock.contains_key(&v[i].0) {
            return false;
        }
        i = i + 1;
    }
    assert forall|p: u64| add@.dom().contains(p) implies stock@.dom().contains(p) by {
        let j = choose|j: int| 0 <= j < v@.len() && v@[j].0 == p;
    }
    true
}

/// True when `stock` holds every product of `need` in at least the needed quantity.
pub fn has_stock(stock: &Stock, need: &Stock) -> (r: bool)
    ensures
        r == covers(stock@, need@),
{
    let v = entries(need);
    let mut i: usize = 0;
    while i < v.len()
        invariant
            i <= v@.len(),
            forall|j: int| 0 <= j < v@.len() ==> need@.contains_key(#[trigger] v@[j].0) && need@[v@[j].0] == v@[j].1,
            forall|k: u64| #[trigger] need@.contains_key(k) ==> exists|j: int| 0 <= j < v@.len() && v@[j].0 == k,
            forall|j: int| 0 <= j < i ==> stock@.contains_key(#[trigger] v@[j].0) && v@[j].1 <= stock@[v@[j].0],
        decreases v@.len() - i,
    {
        let (k, q) = v[i];
        match stock.get(&k) {
            Some(c) => {
                if *c < q {
                    return false;
                }
            },
            None => {
                return false;
            },
        }
        i = i + 1;
    }
    true
}

/// Takes from `stock` each product of `wanted` that it holds in at least the wanted
/// quantity, and gives back what it took.
pub fn reserve_from(stock: &mut Stock, wanted: &Stock) -> (reserved: Stock)
    ensures
        reserved@ == reservable(old(stock)@, wanted@),
        final(stock)@ == stock_minus(old(stock)@, reserved@),
{
    let v = entries(wanted);
    let mut reserved: Stock = HashMap::new();
    let ghost processed: Set<u64> = Set::empty();
    let mut i: usize = 0;
    while i < v.len()
        invariant
            i <= v@.len(),
            v@.len() == wanted@.dom().len(),
            forall|j: int| 0 <= j < v@.len() ==> wanted@.contains_key(#[trigger] v@[j].0) && wanted@[v@[j].0] == v@[j].1,
            forall|k: u64| #[trigger] wanted@.contains_key(k) ==> exists|j: int| 0 <= j < v@.len() && v@[j].0 == k,
            forall|a: int, b: int| 0 <= a < b < v@.len() ==> v@[a].0 != v@[b].0,
            forall|j: int| 0 <= j < i ==> processed.contains(#[trigger] v@[j].0),
            forall|j: int| i <= j < v@.len() ==> !processed.contains(#[trigger] v@[j].0),
            processed.subset_of(wanted@.dom()),
            reserved@ == reservable(old(stock)@, wanted@.restrict(processed)),
            stock@ == stock_minus(old(stock)@, reserved@),
        decreases v@.len() - i,
    {
        let (k, q) = v[i];
        let cur = stock.get(&k);
        match cur {
            Some(c) => {
                let c = *c;
                if c >= q {
                    reserved.insert(k, q);
                    stock.insert(k, c - q);
                }
            },
            None => {},
        }
        proof {
            processed = processed.insert(k);
            assert(reserved@ =~= reservable(old(stock)@, wanted@.restrict(processed)));
            assert(stock@ =~= stock_minus(old(stock)@, reserved@));
        }
        i = i + 1;
    }
    proof {
        assert(processed =~= wanted@.dom());
        assert(wanted@.restrict(processed) =~= wanted@);
    }
    reserved
}

} // verus!
