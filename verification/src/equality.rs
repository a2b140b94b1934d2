//! Equality of values.

use vstd::prelude::*;
use crate::number::{is_nan, is_nan32, number_eq, numbers_equal, single_eq, singles_equal};
use crate::value::{
    lemma_list_item, lemma_map_value, lemma_resolve_any_bound, plain_keyed, ranked, resolve, Plain,
    Store, Value, Vec4,
};

verus! {

/// Equality of four singles: each equal to the one in its place.
pub open spec fn vec4_equal(a: Vec4, b: Vec4) -> bool {
    singles_equal(a.x, b.x) && singles_equal(a.y, b.y) && singles_equal(a.z, b.z)
        && singles_equal(a.w, b.w)
}

/// What a map holds under a key: the value of the first entry with that key.
pub open spec fn lookup<F>(entries: Seq<(Seq<char>, Plain<F>)>, key: Seq<char>) -> Option<Plain<F>>
    decreases entries.len(),
{
    if entries.len() == 0 {
        None
    } else if entries[0].0 == key {
        Some(entries[0].1)
    } else {
        lookup(entries.drop_first(), key)
    }
}

/// Equality of values.
///
/// Booleans, numbers, strings, lists and maps are equal by what they hold: lists item
/// by item, maps when they have as many entries and each key of the one holds an
/// equal value in the other. Functions are equal when they are the same allocation.
/// A `Share` on either side is followed to what its cell holds before anything is
/// compared. `Empty` equals `Empty`. Any other pair is unequal.
pub open spec fn plain_equal<F>(a: Plain<F>, b: Plain<F>) -> bool
    decreases a, b,
{
    match (a, b) {
        (Plain::Number(x), Plain::Number(y)) => numbers_equal(x, y),
        (Plain::Vec4(x), Plain::Vec4(y)) => vec4_equal(x, y),
        (Plain::Bool(x), Plain::Bool(y)) => x == y,
        (Plain::Str(x), Plain::Str(y)) => x == y,
        (Plain::List(x), Plain::List(y)) => x.len() == y.len() && forall|i: int|
            0 <= i < x.len() ==> plain_equal(#[trigger] x[i], y[i]),
        (Plain::Mapping(x), Plain::Mapping(y)) => x.len() == y.len() && forall|i: int|
            0 <= i < x.len() ==> match lookup(y, (#[trigger] x[i]).0) {
                Some(other) => plain_equal(x[i].1, other),
                None => false,
            },
        (Plain::Share { content: x, .. }, Plain::Share { content: y, .. }) => plain_equal(*x, *y),
        (Plain::Share { content: x, .. }, _) => plain_equal(*x, b),
        (_, Plain::Share { content: y, .. }) => plain_equal(a, *y),
        (Plain::Function(x), Plain::Function(y)) => x == y,
        (Plain::Empty, Plain::Empty) => true,
        _ => false,
    }
}

/// `lookup` gives the first entry with the key, and nothing where no entry has it.
pub proof fn lemma_lookup_first<F>(entries: Seq<(Seq<char>, Plain<F>)>, key: Seq<char>, at: int)
    requires
        0 <= at <= entries.len(),
        forall|k: int| 0 <= k < at ==> (#[trigger] entries[k]).0 != key,
        at < entries.len() ==> entries[at].0 == key,
    ensures
        at < entries.len() ==> lookup(entries, key) == Some(entries[at].1),
        at == entries.len() ==> lookup(entries, key) == None::<Plain<F>>,
    decreases at,
{
    if at > 0 {
        let rest = entries.drop_first();
        assert forall|k: int| 0 <= k < at - 1 implies (#[trigger] rest[k]).0 != key by {
            assert(rest[k] == entries[k + 1]);
        }
        lemma_lookup_first(rest, key, at - 1);
    }
}

/// Compares two values, each with the bound that it is ranked below.
fn equal_within<F>(
    store: &Store<F>,
    a: &Value<F>,
    b: &Value<F>,
    Ghost(la): Ghost<nat>,
    Ghost(lb): Ghost<nat>,
) -> (equal: bool)
    requires
        store.well_formed(),
        ranked(*a, store.ranks(), la),
        ranked(*b, store.ranks(), lb),
    ensures
        equal == plain_equal(
            resolve(store.cells(), store.ranks(), la, *a),
            resolve(store.cells(), store.ranks(), lb, *b),
        ),
    decreases la + lb, *a, *b,
{
    let ghost cells = store.cells();
    let ghost ranks = store.ranks();
    match (a, b) {
        (Value::Number(x), Value::Number(y)) => number_eq(*x, *y),
        (Value::Vec4(x), Value::Vec4(y)) => single_eq(x.x, y.x) && single_eq(x.y, y.y)
            && single_eq(x.z, y.z) && single_eq(x.w, y.w),
        (Value::Bool(x), Value::Bool(y)) => *x == *y,
        (Value::Str(x), Value::Str(y)) => **x == **y,
        (Value::List(x), Value::List(y)) => {
            let ghost px = resolve(cells, ranks, la, *a)->List_0;
            let ghost py = resolve(cells, ranks, lb, *b)->List_0;
            if x.len() != y.len() {
                return false;
            }
            let mut i: usize = 0;
            while i < x.len()
                invariant
                    store.well_formed(),
                    cells == store.cells(),
                    *a == Value::List(*x),
                    *b == Value::List(*y),
                    ranks == store.ranks(),
                    ranked(*a, ranks, la),
                    ranked(*b, ranks, lb),
                    x.len() == y.len(),
                    i <= x.len(),
                    px == resolve(cells, ranks, la, *a)->List_0,
                    py == resolve(cells, ranks, lb, *b)->List_0,
                    forall|k: int| 0 <= k < i ==> plain_equal(#[trigger] px[k], py[k]),
                decreases x.len() - i,
            {
                proof {
                    lemma_list_item(*a, 0, i as int);
                    lemma_list_item(*b, 0, i as int);
                    assert(ranked(x@[i as int], ranks, la));
                    assert(ranked(y@[i as int], ranks, lb));
                }
                if !equal_within(store, &x[i], &y[i], Ghost(la), Ghost(lb)) {
                    assert(!plain_equal(px[i as int], py[i as int]));
                    return false;
                }
                i += 1;
            }
            true
        },
        (Value::Mapping(x), Value::Mapping(y)) => {
            let ghost px = resolve(cells, ranks, la, *a)->Mapping_0;
            let ghost py = resolve(cells, ranks, lb, *b)->Mapping_0;
            if x.len() != y.len() {
                return false;
            }
            let mut i: usize = 0;
            while i < x.len()
                invariant
                    store.well_formed(),
                    cells == store.cells(),
                    *a == Value::Mapping(*x),
                    *b == Value::Mapping(*y),
                    ranks == store.ranks(),
                    ranked(*a, ranks, la),
                    ranked(*b, ranks, lb),
                    x.len() == y.len(),
                    i <= x.len(),
                    px == resolve(cells, ranks, la, *a)->Mapping_0,
                    py == resolve(cells, ranks, lb, *b)->Mapping_0,
                    forall|k: int|
                        0 <= k < i ==> match lookup(py, (#[trigger] px[k]).0) {
                            Some(other) => plain_equal(px[k].1, other),
                            None => false,
                        },
                decreases x.len() - i,
            {
                let mut j: usize = 0;
                while j < y.len() && x[i].0 != y[j].0
                    invariant
                        i < x.len(),
                        j <= y.len(),
                        py.len() == y.len(),
                        px.len() == x.len(),
                        px[i as int].0 == x@[i as int].0@,
                        forall|k: int| 0 <= k < y.len() ==> (#[trigger] py[k]).0 == y@[k].0@,
                        forall|k: int| 0 <= k < j ==> (#[trigger] py[k]).0 != px[i as int].0,
                    decreases y.len() - j,
                {
                    j += 1;
                }
                proof {
                    lemma_lookup_first(py, px[i as int].0, j as int);
                }
                if j == y.len() {
                    return false;
                }
                proof {
                    lemma_map_value(*a, 0, i as int);
                    lemma_map_value(*b, 0, j as int);
                    assert(ranked(x@[i as int].1, ranks, la));
                    assert(ranked(y@[j as int].1, ranks, lb));
                }
                if !equal_within(store, &x[i].1, &y[j].1, Ghost(la), Ghost(lb)) {
                    return false;
                }
                i += 1;
            }
            true
        },
        (Value::Share(x), Value::Share(y)) => equal_within(
            store,
            store.cell(*x),
            store.cell(*y),
            Ghost(ranks[*x as int]),
            Ghost(ranks[*y as int]),
        ),
        (Value::Share(x), _) => equal_within(
            store,
            store.cell(*x),
            b,
            Ghost(ranks[*x as int]),
            Ghost(lb),
        ),
        (_, Value::Share(y)) => equal_within(
            store,
            a,
            store.cell(*y),
            Ghost(la),
            Ghost(ranks[*y as int]),
        ),
        (Value::Function(x), Value::Function(y)) => *x == *y,
        (Value::Empty, Value::Empty) => true,
        _ => false,
    }
}

/// Whether two values of a store are equal.
pub fn values_equal<F>(store: &Store<F>, a: &Value<F>, b: &Value<F>) -> (equal: bool)
    requires
        store.well_formed(),
        store.holds(*a),
        store.holds(*b),
    ensures
        equal == plain_equal(store.model(*a), store.model(*b)),
{
    proof {
        store.lemma_holds_ranked(*a);
        store.lemma_holds_ranked(*b);
    }
    equal_within(store, a, b, Ghost(store.top()), Ghost(store.top()))
}

/// The values that equality is meant for: `Empty`, booleans, strings and functions;
/// numbers that are numbers; lists of such values; maps of such values under keys
/// that each occur once; and a `Share` of such a value.
pub open spec fn supports_equality<F>(p: Plain<F>) -> bool
    decreases p,
{
    match p {
        Plain::Empty => true,
        Plain::Bool(_) => true,
        Plain::Str(_) => true,
        Plain::Function(_) => true,
        Plain::Number(n) => !is_nan(n),
        Plain::Vec4(n) => !is_nan32(n.x) && !is_nan32(n.y) && !is_nan32(n.z) && !is_nan32(n.w),
        Plain::List(items) => forall|i: int|
            0 <= i < items.len() ==> supports_equality(#[trigger] items[i]),
        Plain::Mapping(entries) => {
            &&& forall|i: int|
                0 <= i < entries.len() ==> supports_equality((#[trigger] entries[i]).1)
            &&& forall|i: int, j: int|
                0 <= i < j < entries.len() ==> (#[trigger] entries[i]).0 != (#[trigger] entries[j]).0
        },
        Plain::Share { content, .. } => supports_equality(*content),
        _ => false,
    }
}

/// A value that supports equality is equal to itself.
pub proof fn lemma_equal_reflexive<F>(p: Plain<F>)
    requires
        supports_equality(p),
    ensures
        plain_equal(p, p),
    decreases p,
{
    match p {
        Plain::List(items) => {
            assert forall|i: int| 0 <= i < items.len() implies plain_equal(
                #[trigger] items[i],
                items[i],
            ) by {
                lemma_equal_reflexive(items[i]);
            }
        },
        Plain::Mapping(entries) => {
            assert forall|i: int| 0 <= i < entries.len() implies match lookup(
                entries,
                (#[trigger] entries[i]).0,
            ) {
                Some(other) => plain_equal(entries[i].1, other),
                None => false,
            } by {
                lemma_lookup_first(entries, entries[i].0, i);
                lemma_equal_reflexive(entries[i].1);
            }
        },
        Plain::Share { content, .. } => {
            lemma_equal_reflexive(*content);
        },
        _ => {},
    }
}

/// A `Share` on the left compares as what it holds.
pub proof fn lemma_share_on_left<F>(cell: usize, p: Plain<F>, q: Plain<F>)
    ensures
        plain_equal(Plain::Share { cell, content: Box::new(p) }, q) == plain_equal(p, q),
    decreases p,
{
    match (p, q) {
        (Plain::Share { cell: inner, content }, Plain::Share { content: other, .. }) => {
            lemma_share_on_left(inner, *content, *other);
        },
        _ => {},
    }
}

/// A `Share` on the right compares as what it holds.
pub proof fn lemma_share_on_right<F>(cell: usize, p: Plain<F>, q: Plain<F>)
    ensures
        plain_equal(p, Plain::Share { cell, content: Box::new(q) }) == plain_equal(p, q),
{
    match p {
        Plain::Share { cell: inner, content } => {
            lemma_share_on_left(inner, *content, q);
        },
        _ => {},
    }
}

/// A value that supports equality equals a `Share` of itself, on either side.
pub proof fn lemma_share_equals_content<F>(cell: usize, p: Plain<F>)
    requires
        supports_equality(p),
    ensures
        plain_equal(Plain::Share { cell, content: Box::new(p) }, p),
        plain_equal(p, Plain::Share { cell, content: Box::new(p) }),
{
    lemma_equal_reflexive(p);
    lemma_share_on_left(cell, p, p);
    lemma_share_on_right(cell, p, p);
}

/// A handle of a cell equals what the cell holds, on either side, where that
/// supports equality.
pub proof fn lemma_reference_equals_value<F>(
    store: Store<F>,
    handle: Value<F>,
    value: Value<F>,
    cell: usize,
)
    requires
        store.model(handle) == (Plain::Share { cell, content: Box::new(store.model(value)) }),
        supports_equality(store.model(value)),
    ensures
        plain_equal(store.model(handle), store.model(value)),
        plain_equal(store.model(value), store.model(handle)),
{
    lemma_share_equals_content(cell, store.model(value));
}

/// Where a map holds something under a key, one of its entries has the key.
pub proof fn lemma_lookup_some<F>(entries: Seq<(Seq<char>, Plain<F>)>, key: Seq<char>)
    requires
        lookup(entries, key) is Some,
    ensures
        exists|k: int| 0 <= k < entries.len() && (#[trigger] entries[k]).0 == key,
    decreases entries.len(),
{
    if entries[0].0 != key {
        let rest = entries.drop_first();
        lemma_lookup_some(rest, key);
        let k = choose|k: int| 0 <= k < rest.len() && (#[trigger] rest[k]).0 == key;
        assert(entries[k + 1] == rest[k]);
    }
}

/// The keys of the entries of a map, in the order of the entries.
pub open spec fn keys_of<F>(entries: Seq<(Seq<char>, Plain<F>)>) -> Seq<Seq<char>> {
    Seq::new(entries.len(), |i: int| entries[i].0)
}

/// Two maps that are equal one way are equal the other way, where neither holds a
/// key twice: as they have as many keys and each key of the first is one of the
/// second, each key of the second is one of the first.
proof fn lemma_maps_swap<F>(x: Seq<(Seq<char>, Plain<F>)>, y: Seq<(Seq<char>, Plain<F>)>, j: int)
    requires
        plain_keyed(Plain::Mapping(x)),
        plain_keyed(Plain::Mapping(y)),
        plain_equal(Plain::Mapping(x), Plain::Mapping(y)),
        0 <= j < y.len(),
    ensures
        exists|i: int|
            0 <= i < x.len() && (#[trigger] x[i]).0 == y[j].0 && lookup(x, y[j].0) == Some(x[i].1)
                && plain_equal(x[i].1, y[j].1),
{
    broadcast use {vstd::set::group_set_axioms, vstd::seq_lib::seq_to_set_is_finite};

    let kx = keys_of(x);
    let ky = keys_of(y);
    assert forall|a: int, b: int| 0 <= a < kx.len() && 0 <= b < kx.len() && a != b implies kx[a]
        != kx[b] by {
        if a < b {
            assert(x[a].0 != x[b].0);
        } else {
            assert(x[b].0 != x[a].0);
        }
    }
    assert forall|a: int, b: int| 0 <= a < ky.len() && 0 <= b < ky.len() && a != b implies ky[a]
        != ky[b] by {
        if a < b {
            assert(y[a].0 != y[b].0);
        } else {
            assert(y[b].0 != y[a].0);
        }
    }
    kx.unique_seq_to_set();
    ky.unique_seq_to_set();
    assert forall|key: Seq<char>| kx.to_set().contains(key) implies ky.to_set().contains(key) by {
        let a = choose|a: int| 0 <= a < kx.len() && kx[a] == key;
        assert(lookup(y, (#[trigger] x[a]).0) is Some);
        lemma_lookup_some(y, key);
        let b = choose|b: int| 0 <= b < y.len() && (#[trigger] y[b]).0 == key;
        assert(ky[b] == key);
    }
    vstd::set_lib::lemma_subset_equality(kx.to_set(), ky.to_set());
    assert(ky[j] == y[j].0);
    assert(ky.to_set().contains(ky[j]));
    assert(kx.to_set().contains(y[j].0));
    let i = choose|i: int| 0 <= i < kx.len() && kx[i] == y[j].0;
    assert(x[i].0 == y[j].0);
    assert forall|k: int| 0 <= k < i implies (#[trigger] x[k]).0 != y[j].0 by {
        assert(x[k].0 != x[i].0);
    }
    lemma_lookup_first(x, y[j].0, i);
    assert forall|k: int| 0 <= k < j implies (#[trigger] y[k]).0 != x[i].0 by {
        assert(y[k].0 != y[j].0);
    }
    lemma_lookup_first(y, x[i].0, j);
    assert(lookup(y, (#[trigger] x[i]).0) == Some(y[j].1));
}

/// Two values that are equal one way are equal the other way, where no map in them
/// holds a key twice.
pub proof fn lemma_equal_swaps<F>(a: Plain<F>, b: Plain<F>)
    requires
        plain_keyed(a),
        plain_keyed(b),
        plain_equal(a, b),
    ensures
        plain_equal(b, a),
    decreases a, b,
{
    match (a, b) {
        (Plain::List(x), Plain::List(y)) => {
            assert forall|i: int| 0 <= i < y.len() implies plain_equal(#[trigger] y[i], x[i]) by {
                assert(plain_equal(x[i], y[i]));
                lemma_equal_swaps(x[i], y[i]);
            }
        },
        (Plain::Mapping(x), Plain::Mapping(y)) => {
            assert forall|j: int| 0 <= j < y.len() implies match lookup(x, (#[trigger] y[j]).0) {
                Some(other) => plain_equal(y[j].1, other),
                None => false,
            } by {
                lemma_maps_swap(x, y, j);
                let i = choose|i: int|
                    0 <= i < x.len() && (#[trigger] x[i]).0 == y[j].0 && lookup(x, y[j].0) == Some(
                        x[i].1,
                    ) && plain_equal(x[i].1, y[j].1);
                lemma_equal_swaps(x[i].1, y[j].1);
            }
        },
        (Plain::Share { content: x, .. }, Plain::Share { content: y, .. }) => {
            lemma_equal_swaps(*x, *y);
        },
        (Plain::Share { content: x, .. }, _) => {
            lemma_equal_swaps(*x, b);
        },
        (_, Plain::Share { content: y, .. }) => {
            lemma_equal_swaps(a, *y);
        },
        _ => {},
    }
}

/// Equality is symmetric between values in which no map holds a key twice.
pub proof fn lemma_equal_symmetric<F>(a: Plain<F>, b: Plain<F>)
    requires
        plain_keyed(a),
        plain_keyed(b),
    ensures
        plain_equal(a, b) == plain_equal(b, a),
{
    if plain_equal(a, b) {
        lemma_equal_swaps(a, b);
    }
    if plain_equal(b, a) {
        lemma_equal_swaps(b, a);
    }
}

/// Equality is symmetric between the values of a store.
pub proof fn lemma_values_equal_symmetric<F>(store: Store<F>, a: Value<F>, b: Value<F>)
    requires
        store.well_formed(),
        store.holds(a),
        store.holds(b),
    ensures
        plain_equal(store.model(a), store.model(b)) == plain_equal(store.model(b), store.model(a)),
{
    store.lemma_model_keyed(a);
    store.lemma_model_keyed(b);
    lemma_equal_symmetric(store.model(a), store.model(b));
}

/// A handle of a cell compares as what the cell holds, on the left and on the right.
pub proof fn lemma_share_compares_as_contents<F>(store: Store<F>, cell: usize, other: Value<F>)
    requires
        store.well_formed(),
        store.holds(Value::Share(cell)),
    ensures
        plain_equal(store.model(Value::Share(cell)), store.model(other)) == plain_equal(
            store.model(store.content(Value::Share(cell))),
            store.model(other),
        ),
        plain_equal(store.model(other), store.model(Value::Share(cell))) == plain_equal(
            store.model(other),
            store.model(store.content(Value::Share(cell))),
        ),
{
    let cells = store.cells();
    let ranks = store.ranks();
    let held = cells[cell as int];
    let behind = resolve(cells, ranks, ranks[cell as int], held);
    assert(store.model(Value::Share(cell)) == Plain::Share { cell, content: Box::new(behind) });
    assert(ranked(held, ranks, ranks[cell as int]));
    crate::value::lemma_ranked_higher(held, ranks, ranks[cell as int], store.top());
    lemma_resolve_any_bound(cells, ranks, ranks[cell as int], store.top(), held);
    lemma_share_on_left(cell, behind, store.model(other));
    lemma_share_on_right(cell, store.model(other), behind);
}

} // verus!
