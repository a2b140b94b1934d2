//! The values a script works with.

use vstd::prelude::*;
use std::rc::Rc;
use crate::fault::ValueError;
use crate::text::same_text;

verus! {

/// What a host type supplies to be carried inside a [`Value`].
///
/// The value model never learns which host types exist. It asks a foreign value for
/// the name of its type when the value is embedded, and hands the value on, behind a
/// shared handle, to whoever shows it or asks which type it is.
pub trait BuiltinValue {
    /// Reports the name of the value's type.
    fn value_type(&self) -> String;

    /// Renders the value for display.
    fn display(&self) -> String;

    /// Renders the value for debugging.
    fn debug(&self) -> String;
}

/// A shared handle to a foreign value, together with the type name that the value
/// reported when it was embedded.
#[derive(Clone, Debug)]
pub struct Foreign<F> {
    pub kind: String,
    pub payload: Rc<F>,
}

impl<F> Foreign<F> {
    /// Embeds a foreign value, asking it once for the name of its type.
    pub fn new(payload: F) -> (out: Self) where F: BuiltinValue
        ensures
            out.payload == payload,
            call_ensures(F::value_type, (&payload,), out.kind),
    {
        let kind = payload.value_type();
        Foreign { kind, payload: Rc::new(payload) }
    }

    /// Another handle to the same foreign value.
    pub fn duplicate(&self) -> (out: Self)
        ensures
            out == *self,
    {
        Foreign { kind: self.kind.clone(), payload: self.payload.clone() }
    }
}

/// Four single-precision numbers, held by their bits.
#[derive(Clone, Copy, Debug, PartialEq, Eq, Structural)]
pub struct Vec4 {
    pub x: u32,
    pub y: u32,
    pub z: u32,
    pub w: u32,
}

/// A function of the host, known by the identity of its allocation.
#[derive(Clone, Copy, Debug, PartialEq, Eq, Structural)]
pub struct BuiltinFunction {
    pub function: usize,
    pub is_instance_function: bool,
}

impl BuiltinFunction {
    /// Wraps the host function with the given identity. An instance function takes
    /// the value it is called on as its first argument.
    pub fn new(function: usize, is_instance_function: bool) -> (out: Self)
        ensures
            out == (BuiltinFunction { function, is_instance_function }),
    {
        BuiltinFunction { function, is_instance_function }
    }
}

/// A runtime value.
///
/// Lists, maps and strings are shared between handles until one of them is changed.
/// A `Share` names a cell of a [`Store`]: what is written through one handle of a
/// cell is seen through all of them. Numbers are held by their bits. Functions and
/// loops are known by the identity of their allocation.
#[allow(inconsistent_fields)]
#[derive(Clone, Debug)]
pub enum Value<F> {
    Empty,
    Bool(bool),
    Number(u64),
    Vec4(Vec4),
    Range { start: isize, end: isize },
    IndexRange { start: usize, end: Option<usize> },
    List(Rc<Vec<Value<F>>>),
    Mapping(Rc<Vec<(String, Value<F>)>>),
    Str(Rc<String>),
    Share(usize),
    Function(usize),
    BuiltinFunction(BuiltinFunction),
    BuiltinValue(Foreign<F>),
    For(usize),
    While(usize),
}

impl<F> From<bool> for Value<F> {
    fn from(value: bool) -> (out: Self) {
        Value::Bool(value)
    }
}

impl<F> vstd::std_specs::convert::FromSpecImpl<bool> for Value<F> {
    open spec fn obeys_from_spec() -> bool {
        true
    }

    open spec fn from_spec(value: bool) -> Self {
        Value::Bool(value)
    }
}

/// What a value stands for once every `Share` in it has been followed to the cell
/// it names: a tree that no longer refers to a store.
#[allow(inconsistent_fields)]
pub enum Plain<F> {
    Empty,
    Bool(bool),
    Number(u64),
    Vec4(Vec4),
    Range { start: isize, end: isize },
    IndexRange { start: usize, end: Option<usize> },
    List(Seq<Plain<F>>),
    Mapping(Seq<(Seq<char>, Plain<F>)>),
    Str(Seq<char>),
    Share { cell: usize, content: Box<Plain<F>> },
    Function(usize),
    BuiltinFunction(BuiltinFunction),
    BuiltinValue(Foreign<F>),
    For(usize),
    While(usize),
}

/// Whether every `Share` in `v` names a cell below `limit`.
pub open spec fn fits<F>(v: Value<F>, limit: nat) -> bool
    decreases v,
{
    match v {
        Value::List(items) => forall|i: int|
            0 <= i < items@.len() ==> fits(#[trigger] items@[i], limit),
        Value::Mapping(entries) => forall|i: int|
            0 <= i < entries@.len() ==> fits((#[trigger] entries@[i]).1, limit),
        Value::Share(cell) => cell < limit,
        _ => true,
    }
}

/// Whether no map in `v` holds a key twice.
pub open spec fn keyed<F>(v: Value<F>) -> bool
    decreases v,
{
    match v {
        Value::List(items) => forall|i: int| 0 <= i < items@.len() ==> keyed(#[trigger] items@[i]),
        Value::Mapping(entries) => {
            &&& forall|i: int| 0 <= i < entries@.len() ==> keyed((#[trigger] entries@[i]).1)
            &&& forall|i: int, j: int|
                0 <= i < j < entries@.len() ==> (#[trigger] entries@[i]).0@ != (
                #[trigger] entries@[j]).0@
        },
        _ => true,
    }
}

/// Whether no map in a tree holds a key twice.
pub open spec fn plain_keyed<F>(p: Plain<F>) -> bool
    decreases p,
{
    match p {
        Plain::List(items) => forall|i: int|
            0 <= i < items.len() ==> plain_keyed(#[trigger] items[i]),
        Plain::Mapping(entries) => {
            &&& forall|i: int| 0 <= i < entries.len() ==> plain_keyed((#[trigger] entries[i]).1)
            &&& forall|i: int, j: int|
                0 <= i < j < entries.len() ==> (#[trigger] entries[i]).0 != (
                #[trigger] entries[j]).0
        },
        Plain::Share { content, .. } => plain_keyed(*content),
        _ => true,
    }
}

/// Whether every `Share` in `v` names a cell that has a rank, and one below `bound`.
pub open spec fn ranked<F>(v: Value<F>, ranks: Seq<nat>, bound: nat) -> bool
    decreases v,
{
    match v {
        Value::List(items) => forall|i: int|
            0 <= i < items@.len() ==> ranked(#[trigger] items@[i], ranks, bound),
        Value::Mapping(entries) => forall|i: int|
            0 <= i < entries@.len() ==> ranked((#[trigger] entries@[i]).1, ranks, bound),
        Value::Share(cell) => cell < ranks.len() && ranks[cell as int] < bound,
        _ => true,
    }
}

/// The tree that `v` stands for, given the cells it may refer to and their ranks. A
/// `Share` is followed to its cell where the rank of the cell is below `bound`, and the
/// contents of the cell are followed on below the rank of the cell; a `Share` that
/// cannot be followed stands for a `Share` of nothing.
pub open spec fn resolve<F>(cells: Seq<Value<F>>, ranks: Seq<nat>, bound: nat, v: Value<F>) -> Plain<
    F,
>
    decreases bound, v,
{
    match v {
        Value::Empty => Plain::Empty,
        Value::Bool(b) => Plain::Bool(b),
        Value::Number(n) => Plain::Number(n),
        Value::Vec4(n) => Plain::Vec4(n),
        Value::Range { start, end } => Plain::Range { start, end },
        Value::IndexRange { start, end } => Plain::IndexRange { start, end },
        Value::List(items) => Plain::List(
            Seq::new(
                items@.len(),
                |i: int|
                    if 0 <= i < items@.len() {
                        resolve(cells, ranks, bound, items@[i])
                    } else {
                        Plain::Empty
                    },
            ),
        ),
        Value::Mapping(entries) => Plain::Mapping(
            Seq::new(
                entries@.len(),
                |i: int|
                    if 0 <= i < entries@.len() {
                        (entries@[i].0@, resolve(cells, ranks, bound, entries@[i].1))
                    } else {
                        (Seq::empty(), Plain::Empty)
                    },
            ),
        ),
        Value::Str(s) => Plain::Str(s@),
        Value::Share(cell) => if cell < cells.len() && cell < ranks.len() && ranks[cell as int]
            < bound {
            Plain::Share {
                cell,
                content: Box::new(resolve(cells, ranks, ranks[cell as int], cells[cell as int])),
            }
        } else {
            Plain::Share { cell, content: Box::new(Plain::Empty) }
        },
        Value::Function(f) => Plain::Function(f),
        Value::BuiltinFunction(f) => Plain::BuiltinFunction(f),
        Value::BuiltinValue(f) => Plain::BuiltinValue(f),
        Value::For(node) => Plain::For(node),
        Value::While(node) => Plain::While(node),
    }
}

/// Whether following the `Share`s of `v` leads to the cell `target`.
pub open spec fn leads_to<F>(
    cells: Seq<Value<F>>,
    ranks: Seq<nat>,
    bound: nat,
    v: Value<F>,
    target: usize,
) -> bool
    decreases bound, v,
{
    match v {
        Value::List(items) => exists|i: int|
            0 <= i < items@.len() && leads_to(cells, ranks, bound, #[trigger] items@[i], target),
        Value::Mapping(entries) => exists|i: int|
            0 <= i < entries@.len() && leads_to(
                cells,
                ranks,
                bound,
                (#[trigger] entries@[i]).1,
                target,
            ),
        Value::Share(cell) => cell == target || (cell < cells.len() && cell < ranks.len()
            && ranks[cell as int] < bound && leads_to(
            cells,
            ranks,
            ranks[cell as int],
            cells[cell as int],
            target,
        )),
        _ => false,
    }
}

/// What a value stands for does not depend on the bound, once the value is ranked
/// below it.
pub proof fn lemma_resolve_any_bound<F>(
    cells: Seq<Value<F>>,
    ranks: Seq<nat>,
    a: nat,
    b: nat,
    v: Value<F>,
)
    requires
        ranked(v, ranks, a),
        ranked(v, ranks, b),
    ensures
        resolve(cells, ranks, a, v) == resolve(cells, ranks, b, v),
    decreases v,
{
    match v {
        Value::List(items) => {
            assert forall|i: int| 0 <= i < items@.len() implies resolve(
                cells,
                ranks,
                a,
                items@[i],
            ) == resolve(cells, ranks, b, items@[i]) by {
                lemma_resolve_any_bound(cells, ranks, a, b, items@[i]);
            }
            assert(resolve(cells, ranks, a, v)->List_0 =~= resolve(cells, ranks, b, v)->List_0);
        },
        Value::Mapping(entries) => {
            assert forall|i: int| 0 <= i < entries@.len() implies resolve(
                cells,
                ranks,
                a,
                entries@[i].1,
            ) == resolve(cells, ranks, b, entries@[i].1) by {
                lemma_resolve_any_bound(cells, ranks, a, b, entries@[i].1);
            }
            assert(resolve(cells, ranks, a, v)->Mapping_0 =~= resolve(
                cells,
                ranks,
                b,
                v,
            )->Mapping_0);
        },
        _ => {},
    }
}

/// A value that is ranked below a bound is ranked below every higher one.
pub proof fn lemma_ranked_higher<F>(v: Value<F>, ranks: Seq<nat>, a: nat, b: nat)
    requires
        ranked(v, ranks, a),
        a <= b,
    ensures
        ranked(v, ranks, b),
    decreases v,
{
    match v {
        Value::List(items) => {
            assert forall|i: int| 0 <= i < items@.len() implies ranked(
                #[trigger] items@[i],
                ranks,
                b,
            ) by {
                lemma_ranked_higher(items@[i], ranks, a, b);
            }
        },
        Value::Mapping(entries) => {
            assert forall|i: int| 0 <= i < entries@.len() implies ranked(
                (#[trigger] entries@[i]).1,
                ranks,
                b,
            ) by {
                lemma_ranked_higher(entries@[i].1, ranks, a, b);
            }
        },
        _ => {},
    }
}

/// A value whose `Share`s name cells with ranks below a bound is ranked below it.
pub proof fn lemma_fits_ranked<F>(v: Value<F>, ranks: Seq<nat>, bound: nat)
    requires
        fits(v, ranks.len()),
        forall|i: int| 0 <= i < ranks.len() ==> ranks[i] < bound,
    ensures
        ranked(v, ranks, bound),
    decreases v,
{
    match v {
        Value::List(items) => {
            assert forall|i: int| 0 <= i < items@.len() implies ranked(
                #[trigger] items@[i],
                ranks,
                bound,
            ) by {
                lemma_fits_ranked(items@[i], ranks, bound);
            }
        },
        Value::Mapping(entries) => {
            assert forall|i: int| 0 <= i < entries@.len() implies ranked(
                (#[trigger] entries@[i]).1,
                ranks,
                bound,
            ) by {
                lemma_fits_ranked(entries@[i].1, ranks, bound);
            }
        },
        _ => {},
    }
}

/// A value that is ranked stays ranked when more cells get ranks.
pub proof fn lemma_ranked_extended<F>(v: Value<F>, ranks: Seq<nat>, longer: Seq<nat>, bound: nat)
    requires
        ranked(v, ranks, bound),
        ranks.len() <= longer.len(),
        forall|i: int| 0 <= i < ranks.len() ==> longer[i] == ranks[i],
    ensures
        ranked(v, longer, bound),
    decreases v,
{
    match v {
        Value::List(items) => {
            assert forall|i: int| 0 <= i < items@.len() implies ranked(
                #[trigger] items@[i],
                longer,
                bound,
            ) by {
                lemma_ranked_extended(items@[i], ranks, longer, bound);
            }
        },
        Value::Mapping(entries) => {
            assert forall|i: int| 0 <= i < entries@.len() implies ranked(
                (#[trigger] entries@[i]).1,
                longer,
                bound,
            ) by {
                lemma_ranked_extended(entries@[i].1, ranks, longer, bound);
            }
        },
        _ => {},
    }
}

/// What a value stands for stays the same when cells are added after those that it
/// can reach.
pub proof fn lemma_resolve_extended<F>(
    cells: Seq<Value<F>>,
    ranks: Seq<nat>,
    more_cells: Seq<Value<F>>,
    more_ranks: Seq<nat>,
    bound: nat,
    v: Value<F>,
)
    requires
        ranks.len() == cells.len(),
        cells.len() <= more_cells.len(),
        ranks.len() <= more_ranks.len(),
        forall|i: int| 0 <= i < cells.len() ==> more_cells[i] == cells[i],
        forall|i: int| 0 <= i < ranks.len() ==> more_ranks[i] == ranks[i],
        forall|i: int| 0 <= i < cells.len() ==> ranked(#[trigger] cells[i], ranks, ranks[i]),
        ranked(v, ranks, bound),
    ensures
        resolve(more_cells, more_ranks, bound, v) == resolve(cells, ranks, bound, v),
    decreases bound, v,
{
    match v {
        Value::List(items) => {
            assert forall|i: int| 0 <= i < items@.len() implies resolve(
                more_cells,
                more_ranks,
                bound,
                items@[i],
            ) == resolve(cells, ranks, bound, items@[i]) by {
                lemma_resolve_extended(cells, ranks, more_cells, more_ranks, bound, items@[i]);
            }
            assert(resolve(more_cells, more_ranks, bound, v)->List_0 =~= resolve(
                cells,
                ranks,
                bound,
                v,
            )->List_0);
        },
        Value::Mapping(entries) => {
            assert forall|i: int| 0 <= i < entries@.len() implies resolve(
                more_cells,
                more_ranks,
                bound,
                entries@[i].1,
            ) == resolve(cells, ranks, bound, entries@[i].1) by {
                lemma_resolve_extended(
                    cells,
                    ranks,
                    more_cells,
                    more_ranks,
                    bound,
                    entries@[i].1,
                );
            }
            assert(resolve(more_cells, more_ranks, bound, v)->Mapping_0 =~= resolve(
                cells,
                ranks,
                bound,
                v,
            )->Mapping_0);
        },
        Value::Share(cell) => {
            lemma_resolve_extended(
                cells,
                ranks,
                more_cells,
                more_ranks,
                ranks[cell as int],
                cells[cell as int],
            );
        },
        _ => {},
    }
}

/// What a value stands for depends on the cells alone, not on the ranks that show
/// that following handles comes to an end.
pub proof fn lemma_resolve_any_ranks<F>(
    cells: Seq<Value<F>>,
    ranks: Seq<nat>,
    bound: nat,
    other_ranks: Seq<nat>,
    other_bound: nat,
    v: Value<F>,
)
    requires
        ranks.len() == cells.len(),
        other_ranks.len() == cells.len(),
        forall|i: int| 0 <= i < cells.len() ==> ranked(#[trigger] cells[i], ranks, ranks[i]),
        forall|i: int|
            0 <= i < cells.len() ==> ranked(#[trigger] cells[i], other_ranks, other_ranks[i]),
        ranked(v, ranks, bound),
        ranked(v, other_ranks, other_bound),
    ensures
        resolve(cells, ranks, bound, v) == resolve(cells, other_ranks, other_bound, v),
    decreases bound, v,
{
    match v {
        Value::List(items) => {
            assert forall|i: int| 0 <= i < items@.len() implies resolve(
                cells,
                ranks,
                bound,
                items@[i],
            ) == resolve(cells, other_ranks, other_bound, items@[i]) by {
                lemma_resolve_any_ranks(cells, ranks, bound, other_ranks, other_bound, items@[i]);
            }
            assert(resolve(cells, ranks, bound, v)->List_0 =~= resolve(
                cells,
                other_ranks,
                other_bound,
                v,
            )->List_0);
        },
        Value::Mapping(entries) => {
            assert forall|i: int| 0 <= i < entries@.len() implies resolve(
                cells,
                ranks,
                bound,
                entries@[i].1,
            ) == resolve(cells, other_ranks, other_bound, entries@[i].1) by {
                lemma_resolve_any_ranks(
                    cells,
                    ranks,
                    bound,
                    other_ranks,
                    other_bound,
                    entries@[i].1,
                );
            }
            assert(resolve(cells, ranks, bound, v)->Mapping_0 =~= resolve(
                cells,
                other_ranks,
                other_bound,
                v,
            )->Mapping_0);
        },
        Value::Share(cell) => {
            lemma_resolve_any_ranks(
                cells,
                ranks,
                ranks[cell as int],
                other_ranks,
                other_ranks[cell as int],
                cells[cell as int],
            );
        },
        _ => {},
    }
}

/// Two values that differ at most in which allocation holds their list or map.
pub open spec fn alike<F>(a: Value<F>, b: Value<F>) -> bool {
    match (a, b) {
        (Value::List(x), Value::List(y)) => x@ == y@,
        (Value::Mapping(x), Value::Mapping(y)) => x@ == y@,
        _ => a == b,
    }
}

/// Values that are alike stand for the same tree, name the same cells, and lead to
/// the same cells.
pub proof fn lemma_alike<F>(
    cells: Seq<Value<F>>,
    ranks: Seq<nat>,
    bound: nat,
    a: Value<F>,
    b: Value<F>,
)
    requires
        alike(a, b),
    ensures
        resolve(cells, ranks, bound, a) == resolve(cells, ranks, bound, b),
        ranked(a, ranks, bound) == ranked(b, ranks, bound),
        keyed(a) == keyed(b),
        forall|limit: nat| fits(a, limit) == fits(b, limit),
        forall|target: usize|
            leads_to(cells, ranks, bound, a, target) == leads_to(cells, ranks, bound, b, target),
{
    match (a, b) {
        (Value::List(x), Value::List(y)) => {
            assert(resolve(cells, ranks, bound, a)->List_0 =~= resolve(
                cells,
                ranks,
                bound,
                b,
            )->List_0);
        },
        (Value::Mapping(x), Value::Mapping(y)) => {
            assert(resolve(cells, ranks, bound, a)->Mapping_0 =~= resolve(
                cells,
                ranks,
                bound,
                b,
            )->Mapping_0);
        },
        _ => {},
    }
}

/// The ranks after the cell `target` got new contents: the rank of the cell, and of
/// each cell that leads to it, goes up by `top`.
pub open spec fn raised<F>(cells: Seq<Value<F>>, ranks: Seq<nat>, top: nat, target: usize) -> Seq<
    nat,
> {
    Seq::new(
        ranks.len(),
        |k: int|
            if 0 <= k < ranks.len() && k < cells.len() && (k == target || leads_to(
                cells,
                ranks,
                ranks[k],
                cells[k],
                target,
            )) {
                ranks[k] + top
            } else {
                ranks[k]
            },
    )
}

/// A value that was ranked below a bound is ranked below it by the raised ranks, or
/// below the raised bound where it leads to the cell that got new contents.
pub proof fn lemma_raised_ranked<F>(
    cells: Seq<Value<F>>,
    ranks: Seq<nat>,
    top: nat,
    target: usize,
    v: Value<F>,
    bound: nat,
    lifted: bool,
)
    requires
        ranks.len() == cells.len(),
        ranked(v, ranks, bound),
        leads_to(cells, ranks, bound, v, target) ==> lifted,
    ensures
        ranked(
            v,
            raised(cells, ranks, top, target),
            if lifted {
                bound + top
            } else {
                bound
            },
        ),
    decreases v,
{
    match v {
        Value::List(items) => {
            assert forall|i: int| 0 <= i < items@.len() implies ranked(
                #[trigger] items@[i],
                raised(cells, ranks, top, target),
                if lifted {
                    bound + top
                } else {
                    bound
                },
            ) by {
                lemma_raised_ranked(cells, ranks, top, target, items@[i], bound, lifted);
            }
        },
        Value::Mapping(entries) => {
            assert forall|i: int| 0 <= i < entries@.len() implies ranked(
                (#[trigger] entries@[i]).1,
                raised(cells, ranks, top, target),
                if lifted {
                    bound + top
                } else {
                    bound
                },
            ) by {
                lemma_raised_ranked(cells, ranks, top, target, entries@[i].1, bound, lifted);
            }
        },
        _ => {},
    }
}

/// The cells that `Share` handles name.
///
/// A cell is made by [`make_reference`] and keeps its place. No cell leads to itself:
/// each cell has a rank above the ranks of the cells that its contents name, so that
/// following handles always comes to an end.
pub struct Store<F> {
    cells: Vec<Value<F>>,
    ranks: Ghost<Seq<nat>>,
    top: Ghost<nat>,
}

impl<F> Store<F> {
    /// The contents of the cells, oldest first.
    pub closed spec fn cells(&self) -> Seq<Value<F>> {
        self.cells@
    }

    /// The ranks of the cells.
    pub closed spec fn ranks(&self) -> Seq<nat> {
        self.ranks@
    }

    /// A number above every rank.
    pub closed spec fn top(&self) -> nat {
        self.top@
    }

    /// Every cell has a rank, what a cell holds names cells of lower rank only, and
    /// no map in a cell holds a key twice.
    pub open spec fn well_formed(&self) -> bool {
        &&& self.ranks().len() == self.cells().len()
        &&& forall|i: int| 0 <= i < self.ranks().len() ==> self.ranks()[i] < self.top()
        &&& forall|i: int|
            0 <= i < self.cells().len() ==> ranked(
                #[trigger] self.cells()[i],
                self.ranks(),
                self.ranks()[i],
            )
        &&& forall|i: int| 0 <= i < self.cells().len() ==> keyed(#[trigger] self.cells()[i])
    }

    /// `v` is a value of this store: every `Share` in it names a cell of the store,
    /// and no map in it holds a key twice.
    pub open spec fn holds(&self, v: Value<F>) -> bool {
        fits(v, self.cells().len()) && keyed(v)
    }

    /// What `v` stands for in this store.
    pub open spec fn model(&self, v: Value<F>) -> Plain<F> {
        resolve(self.cells(), self.ranks(), self.top(), v)
    }

    /// What a handle gives when followed once: the contents of the cell for a
    /// `Share`, the value itself for anything else.
    pub open spec fn content(&self, v: Value<F>) -> Value<F> {
        match v {
            Value::Share(cell) => self.cells()[cell as int],
            _ => v,
        }
    }

    /// Whether following the `Share`s of `v` leads to the cell `target`.
    pub open spec fn leads(&self, v: Value<F>, target: usize) -> bool {
        leads_to(self.cells(), self.ranks(), self.top(), v, target)
    }

    /// What writing `value` through `handle` makes of the cells: the cell that the
    /// handle names holds the value and the others are as they were. The write is
    /// refused where the handle is no `Share`, and where the value leads to the cell
    /// that is to hold it.
    pub open spec fn written(&self, handle: Value<F>, value: Value<F>) -> Result<
        Seq<Value<F>>,
        ValueError,
    > {
        match handle {
            Value::Share(cell) => if self.leads(value, cell) {
                Err(ValueError::Cyclic)
            } else {
                Ok(self.cells().update(cell as int, value))
            },
            _ => Err(ValueError::NotShared),
        }
    }

    /// A value of a well-formed store is ranked below the top.
    pub proof fn lemma_holds_ranked(&self, v: Value<F>)
        requires
            self.well_formed(),
            self.holds(v),
        ensures
            ranked(v, self.ranks(), self.top()),
    {
        lemma_fits_ranked(v, self.ranks(), self.top());
    }

    /// What a value stands for is the same in two stores whose cells hold the same.
    pub proof fn lemma_model_by_cells(&self, other: &Self, v: Value<F>)
        requires
            self.well_formed(),
            other.well_formed(),
            self.cells() == other.cells(),
            self.holds(v),
        ensures
            self.model(v) == other.model(v),
    {
        self.lemma_holds_ranked(v);
        other.lemma_holds_ranked(v);
        lemma_resolve_any_ranks(
            self.cells(),
            self.ranks(),
            self.top(),
            other.ranks(),
            other.top(),
            v,
        );
    }

    /// A store without cells.
    pub fn new() -> (out: Self)
        ensures
            out.cells() == Seq::<Value<F>>::empty(),
            out.well_formed(),
    {
        Store { cells: Vec::new(), ranks: Ghost(Seq::empty()), top: Ghost(0) }
    }

    /// The number of cells.
    pub fn len(&self) -> (n: usize)
        ensures
            n == self.cells().len(),
    {
        self.cells.len()
    }

    /// What a cell holds.
    pub fn cell(&self, cell: usize) -> (held: &Value<F>)
        requires
            cell < self.cells().len(),
        ensures
            *held == self.cells()[cell as int],
    {
        &self.cells[cell]
    }

    /// Whether a value is a value of this store.
    pub fn contains(&self, value: &Value<F>) -> (out: bool)
        ensures
            out == self.holds(*value),
    {
        fits_within(value, self.cells.len()) && has_distinct_keys(value)
    }

    /// Adds a cell that holds `value` and gives its place.
    fn push(&mut self, value: Value<F>) -> (cell: usize)
        requires
            old(self).well_formed(),
            old(self).holds(value),
        ensures
            final(self).well_formed(),
            cell == old(self).cells().len(),
            final(self).cells() == old(self).cells().push(value),
            final(self).model(Value::Share(cell)) == (Plain::Share {
                cell,
                content: Box::new(old(self).model(value)),
            }),
            forall|held: Value<F>| #[trigger]
                old(self).holds(held) ==> final(self).holds(held) && final(self).model(held) == old(
                    self,
                ).model(held),
    {
        let ghost cells = self.cells@;
        let ghost ranks = self.ranks@;
        let ghost top = self.top@;
        let cell = self.cells.len();
        self.cells.push(value);
        self.ranks = Ghost(ranks.push(top));
        self.top = Ghost(top + 1);
        proof {
            let more_cells = self.cells@;
            let more_ranks = self.ranks@;
            lemma_fits_ranked(value, ranks, top);
            lemma_ranked_extended(value, ranks, more_ranks, top);
            assert forall|i: int| 0 <= i < more_cells.len() implies ranked(
                #[trigger] more_cells[i],
                more_ranks,
                more_ranks[i],
            ) by {
                if i < cells.len() {
                    assert(ranked(cells[i], ranks, ranks[i]));
                    lemma_ranked_extended(cells[i], ranks, more_ranks, ranks[i]);
                }
            }
            lemma_resolve_extended(cells, ranks, more_cells, more_ranks, top, value);
            assert forall|held: Value<F>| #[trigger] old(self).holds(held) implies self.holds(held)
                && self.model(held) == old(self).model(held) by {
                lemma_fits_higher(held, cells.len(), more_cells.len());
                lemma_fits_ranked(held, ranks, top);
                lemma_ranked_extended(held, ranks, more_ranks, top);
                lemma_ranked_higher(held, more_ranks, top, top + 1);
                lemma_resolve_any_bound(more_cells, more_ranks, top + 1, top, held);
                lemma_resolve_extended(cells, ranks, more_cells, more_ranks, top, held);
            }
        }
        cell
    }

    /// Whether following the `Share`s of a value leads to a cell.
    fn reaches(&self, value: &Value<F>, target: usize, Ghost(bound): Ghost<nat>) -> (out: bool)
        requires
            self.well_formed(),
            ranked(*value, self.ranks(), bound),
        ensures
            out == leads_to(self.cells(), self.ranks(), bound, *value, target),
        decreases bound, *value,
    {
        match value {
            Value::List(items) => {
                let mut i: usize = 0;
                while i < items.len()
                    invariant
                        self.well_formed(),
                        *value == Value::List(*items),
                        ranked(*value, self.ranks(), bound),
                        i <= items.len(),
                        forall|k: int|
                            0 <= k < i ==> !leads_to(
                                self.cells(),
                                self.ranks(),
                                bound,
                                #[trigger] items@[k],
                                target,
                            ),
                    decreases items.len() - i,
                {
                    proof {
                        lemma_list_item(*value, 0, i as int);
                        assert(ranked(items@[i as int], self.ranks(), bound));
                    }
                    if self.reaches(&items[i], target, Ghost(bound)) {
                        return true;
                    }
                    i += 1;
                }
                false
            },
            Value::Mapping(entries) => {
                let mut i: usize = 0;
                while i < entries.len()
                    invariant
                        self.well_formed(),
                        *value == Value::Mapping(*entries),
                        ranked(*value, self.ranks(), bound),
                        i <= entries.len(),
                        forall|k: int|
                            0 <= k < i ==> !leads_to(
                                self.cells(),
                                self.ranks(),
                                bound,
                                (#[trigger] entries@[k]).1,
                                target,
                            ),
                    decreases entries.len() - i,
                {
                    proof {
                        lemma_map_value(*value, 0, i as int);
                        assert(ranked(entries@[i as int].1, self.ranks(), bound));
                    }
                    if self.reaches(&entries[i].1, target, Ghost(bound)) {
                        return true;
                    }
                    i += 1;
                }
                false
            },
            Value::Share(cell) => {
                if *cell == target {
                    true
                } else {
                    self.reaches(&self.cells[*cell], target, Ghost(self.ranks@[*cell as int]))
                }
            },
            _ => false,
        }
    }

    /// Writes a value through a handle: every handle of the same cell gives the value
    /// from now on.
    pub fn write(&mut self, handle: &Value<F>, value: Value<F>) -> (out: Result<(), ValueError>)
        requires
            old(self).well_formed(),
            old(self).holds(*handle),
            old(self).holds(value),
        ensures
            final(self).well_formed(),
            match old(self).written(*handle, value) {
                Ok(cells) => out is Ok && final(self).cells() == cells,
                Err(error) => out == Err::<(), ValueError>(error) && *final(self) == *old(self),
            },
    {
        match handle {
            Value::Share(cell) => {
                let ghost cells = self.cells@;
                let ghost ranks = self.ranks@;
                let ghost top = self.top@;
                proof {
                    lemma_fits_ranked(value, ranks, top);
                }
                if self.reaches(&value, *cell, Ghost(top)) {
                    Err(ValueError::Cyclic)
                } else {
                    let ghost lifted = raised(cells, ranks, top, *cell);
                    proof {
                        lemma_raised_ranked(cells, ranks, top, *cell, value, top, false);
                        lemma_ranked_higher(value, lifted, top, lifted[*cell as int]);
                        assert forall|i: int| 0 <= i < cells.len() implies ranked(
                            #[trigger] cells[i],
                            lifted,
                            lifted[i],
                        ) by {
                            lemma_raised_ranked(
                                cells,
                                ranks,
                                top,
                                *cell,
                                cells[i],
                                ranks[i],
                                i == *cell || leads_to(cells, ranks, ranks[i], cells[i], *cell),
                            );
                        }
                    }
                    self.cells.set(*cell, value);
                    self.ranks = Ghost(lifted);
                    self.top = Ghost(top + top);
                    Ok(())
                }
            },
            _ => Err(ValueError::NotShared),
        }
    }
}

/// A value that fits a limit fits every higher one.
pub proof fn lemma_fits_higher<F>(v: Value<F>, a: nat, b: nat)
    requires
        fits(v, a),
        a <= b,
    ensures
        fits(v, b),
    decreases v,
{
    match v {
        Value::List(items) => {
            assert forall|i: int| 0 <= i < items@.len() implies fits(#[trigger] items@[i], b) by {
                lemma_fits_higher(items@[i], a, b);
            }
        },
        Value::Mapping(entries) => {
            assert forall|i: int| 0 <= i < entries@.len() implies fits(
                (#[trigger] entries@[i]).1,
                b,
            ) by {
                lemma_fits_higher(entries@[i].1, a, b);
            }
        },
        _ => {},
    }
}

impl<F> Value<F> {
    /// Another handle to the same value. Nothing is copied but the handle: a list, a
    /// map or a string stays shared until one of its handles is changed.
    pub fn duplicate(&self) -> (out: Self)
        ensures
            out == *self,
    {
        match self {
            Value::Empty => Value::Empty,
            Value::Bool(b) => Value::Bool(*b),
            Value::Number(n) => Value::Number(*n),
            Value::Vec4(n) => Value::Vec4(*n),
            Value::Range { start, end } => Value::Range { start: *start, end: *end },
            Value::IndexRange { start, end } => Value::IndexRange { start: *start, end: *end },
            Value::List(items) => Value::List(items.clone()),
            Value::Mapping(entries) => Value::Mapping(entries.clone()),
            Value::Str(s) => Value::Str(s.clone()),
            Value::Share(cell) => Value::Share(*cell),
            Value::Function(f) => Value::Function(*f),
            Value::BuiltinFunction(f) => Value::BuiltinFunction(*f),
            Value::BuiltinValue(f) => Value::BuiltinValue(f.duplicate()),
            Value::For(node) => Value::For(*node),
            Value::While(node) => Value::While(*node),
        }
    }

    /// The same value in an allocation of its own, where it is a list or a map: the
    /// items are handed over, the allocation is not.
    pub fn detach(&self) -> (out: Self)
        ensures
            alike(out, *self),
    {
        match self {
            Value::List(items) => {
                let mut copy: Vec<Value<F>> = Vec::new();
                let mut i: usize = 0;
                while i < items.len()
                    invariant
                        i <= items.len(),
                        copy@ == items@.take(i as int),
                    decreases items.len() - i,
                {
                    copy.push(items[i].duplicate());
                    i += 1;
                    assert(copy@ =~= items@.take(i as int));
                }
                assert(copy@ =~= items@);
                Value::List(Rc::new(copy))
            },
            Value::Mapping(entries) => {
                let mut copy: Vec<(String, Value<F>)> = Vec::new();
                let mut i: usize = 0;
                while i < entries.len()
                    invariant
                        i <= entries.len(),
                        copy@ == entries@.take(i as int),
                    decreases entries.len() - i,
                {
                    copy.push((entries[i].0.clone(), entries[i].1.duplicate()));
                    i += 1;
                    assert(copy@ =~= entries@.take(i as int));
                }
                assert(copy@ =~= entries@);
                Value::Mapping(Rc::new(copy))
            },
            _ => self.duplicate(),
        }
    }

    /// The same value as the only handle of its allocation, where it is a list or a
    /// map: kept when no other handle shares it, copied when one does.
    pub fn into_unique(self) -> (out: Self)
        ensures
            alike(out, self),
    {
        match self {
            Value::List(items) => match Rc::try_unwrap(items) {
                Ok(owned) => Value::List(Rc::new(owned)),
                Err(shared) => Value::List(shared).detach(),
            },
            Value::Mapping(entries) => match Rc::try_unwrap(entries) {
                Ok(owned) => Value::Mapping(Rc::new(owned)),
                Err(shared) => Value::Mapping(shared).detach(),
            },
            other => other,
        }
    }
}

/// Whether two values are of the same kind, whichever of them is behind a `Share`.
pub open spec fn same_kind<F>(a: Value<F>, b: Value<F>) -> bool {
    match (a, b) {
        (Value::Empty, Value::Empty) => true,
        (Value::Bool(_), Value::Bool(_)) => true,
        (Value::Number(_), Value::Number(_)) => true,
        (Value::Vec4(_), Value::Vec4(_)) => true,
        (Value::Range { .. }, Value::Range { .. }) => true,
        (Value::IndexRange { .. }, Value::IndexRange { .. }) => true,
        (Value::List(_), Value::List(_)) => true,
        (Value::Mapping(_), Value::Mapping(_)) => true,
        (Value::Str(_), Value::Str(_)) => true,
        (Value::Share(_), Value::Share(_)) => true,
        (Value::Function(_), Value::Function(_)) => true,
        (Value::BuiltinFunction(_), Value::BuiltinFunction(_)) => true,
        (Value::BuiltinValue(_), Value::BuiltinValue(_)) => true,
        (Value::For(_), Value::For(_)) => true,
        (Value::While(_), Value::While(_)) => true,
        _ => false,
    }
}

/// Whether two values as they stand are of the same kind.
pub fn kinds_match<F>(a: &Value<F>, b: &Value<F>) -> (same: bool)
    ensures
        same == same_kind(*a, *b),
{
    match (a, b) {
        (Value::Empty, Value::Empty) => true,
        (Value::Bool(_), Value::Bool(_)) => true,
        (Value::Number(_), Value::Number(_)) => true,
        (Value::Vec4(_), Value::Vec4(_)) => true,
        (Value::Range { .. }, Value::Range { .. }) => true,
        (Value::IndexRange { .. }, Value::IndexRange { .. }) => true,
        (Value::List(_), Value::List(_)) => true,
        (Value::Mapping(_), Value::Mapping(_)) => true,
        (Value::Str(_), Value::Str(_)) => true,
        (Value::Share(_), Value::Share(_)) => true,
        (Value::Function(_), Value::Function(_)) => true,
        (Value::BuiltinFunction(_), Value::BuiltinFunction(_)) => true,
        (Value::BuiltinValue(_), Value::BuiltinValue(_)) => true,
        (Value::For(_), Value::For(_)) => true,
        (Value::While(_), Value::While(_)) => true,
        _ => false,
    }
}

/// Whether two values are of the same kind once a `Share` on either side has been
/// followed to what its cell holds.
pub fn values_have_matching_type<F>(store: &Store<F>, a: &Value<F>, b: &Value<F>) -> (same: bool)
    requires
        store.holds(*a),
        store.holds(*b),
    ensures
        same == same_kind(store.content(*a), store.content(*b)),
{
    let behind_a = match a {
        Value::Share(cell) => store.cell(*cell),
        _ => a,
    };
    let behind_b = match b {
        Value::Share(cell) => store.cell(*cell),
        _ => b,
    };
    kinds_match(behind_a, behind_b)
}

/// A copy of a value that shares no list or map allocation with it. A `Share` is
/// followed once: the copy is made of what the cell holds now and is not itself a
/// handle of that cell.
pub fn copy_value<F>(store: &Store<F>, value: &Value<F>) -> (out: Value<F>)
    requires
        store.holds(*value),
    ensures
        alike(out, store.content(*value)),
{
    match value {
        Value::Share(cell) => store.cell(*cell).detach(),
        _ => value.detach(),
    }
}

/// What a handle gives when followed once: what the cell holds for a `Share`, the
/// value itself for anything else.
pub fn deref_value<F>(store: &Store<F>, value: &Value<F>) -> (out: Value<F>)
    requires
        store.holds(*value),
    ensures
        out == store.content(*value),
{
    match value {
        Value::Share(cell) => store.cell(*cell).duplicate(),
        _ => value.duplicate(),
    }
}

/// Turns a value into a handle of a cell that holds it, and says whether it did.
///
/// A value that is a `Share` already comes back as it is, with `false`, and the store
/// stays as it was. Any other value moves into a new cell, as the only handle of its
/// list or map, and the handle of that cell comes back with `true`: the handle stands
/// for a `Share` of what the value stood for, and every other value of the store
/// stands for what it stood for.
pub fn make_reference<F>(store: &mut Store<F>, value: Value<F>) -> (out: (Value<F>, bool))
    requires
        old(store).well_formed(),
        old(store).holds(value),
    ensures
        final(store).well_formed(),
        value is Share ==> out.0 == value && !out.1 && *final(store) == *old(store),
        !(value is Share) ==> {
            &&& out.1
            &&& out.0 matches Value::Share(cell) && cell == old(store).cells().len()
                && final(store).model(out.0) == (Plain::Share {
                cell,
                content: Box::new(old(store).model(value)),
            })
            &&& final(store).cells().len() == old(store).cells().len() + 1
            &&& final(store).cells().take(old(store).cells().len() as int) == old(store).cells()
            &&& alike(final(store).cells().last(), value)
            &&& forall|held: Value<F>| #[trigger]
                old(store).holds(held) ==> final(store).holds(held) && final(store).model(held)
                    == old(store).model(held)
        },
{
    match value {
        Value::Share(cell) => (Value::Share(cell), false),
        other => {
            let unique = other.into_unique();
            proof {
                lemma_alike(store.cells(), store.ranks(), store.top(), unique, value);
            }
            let cell = store.push(unique);
            (Value::Share(cell), true)
        },
    }
}

/// An item of a list is smaller than the list, and fits a limit that the list fits.
pub proof fn lemma_list_item<F>(v: Value<F>, limit: nat, k: int)
    requires
        v is List,
        0 <= k < v->List_0@.len(),
    ensures
        decreases_to!(v => v->List_0@[k]),
        fits(v, limit) ==> fits(v->List_0@[k], limit),
{
}

/// A value of a map is smaller than the map, and fits a limit that the map fits.
pub proof fn lemma_map_value<F>(v: Value<F>, limit: nat, k: int)
    requires
        v is Mapping,
        0 <= k < v->Mapping_0@.len(),
    ensures
        decreases_to!(v => v->Mapping_0@[k].1),
        fits(v, limit) ==> fits(v->Mapping_0@[k].1, limit),
{
}

/// Whether every `Share` in a value names a cell below `limit`.
pub fn fits_within<F>(value: &Value<F>, limit: usize) -> (out: bool)
    ensures
        out == fits(*value, limit as nat),
    decreases *value,
{
    match value {
        Value::List(items) => {
            let mut i: usize = 0;
            while i < items.len()
                invariant
                    *value == Value::List(*items),
                    i <= items.len(),
                    forall|k: int| 0 <= k < i ==> fits(#[trigger] items@[k], limit as nat),
                decreases items.len() - i,
            {
                proof {
                    lemma_list_item(*value, limit as nat, i as int);
                }
                if !fits_within(&items[i], limit) {
                    return false;
                }
                i += 1;
            }
            true
        },
        Value::Mapping(entries) => {
            let mut i: usize = 0;
            while i < entries.len()
                invariant
                    *value == Value::Mapping(*entries),
                    i <= entries.len(),
                    forall|k: int| 0 <= k < i ==> fits((#[trigger] entries@[k]).1, limit as nat),
                decreases entries.len() - i,
            {
                proof {
                    lemma_map_value(*value, limit as nat, i as int);
                }
                if !fits_within(&entries[i].1, limit) {
                    return false;
                }
                i += 1;
            }
            true
        },
        Value::Share(cell) => *cell < limit,
        _ => true,
    }
}

/// What is written through one handle of a cell is what every handle of that cell
/// gives afterwards: each of them stands for a `Share` of what the value stood for.
/// The other cells hold what they held.
pub proof fn lemma_write_is_seen<F>(
    before: Store<F>,
    after: Store<F>,
    handle: Value<F>,
    other: Value<F>,
    value: Value<F>,
)
    requires
        before.well_formed(),
        after.well_formed(),
        before.holds(handle),
        before.holds(value),
        handle is Share,
        other == handle,
        before.written(handle, value) == Ok::<Seq<Value<F>>, ValueError>(after.cells()),
    ensures
        after.content(other) == value,
        after.model(other) == (Plain::Share {
            cell: handle->Share_0,
            content: Box::new(before.model(value)),
        }),
        forall|cell: int|
            0 <= cell < before.cells().len() && cell != handle->Share_0 ==> after.cells()[cell]
                == before.cells()[cell],
{
    let cell = handle->Share_0;
    lemma_write_elsewhere(before, after, cell, value, value);
    after.lemma_holds_ranked(value);
    assert(ranked(after.cells()[cell as int], after.ranks(), after.ranks()[cell as int]));
    lemma_resolve_any_bound(
        after.cells(),
        after.ranks(),
        after.ranks()[cell as int],
        after.top(),
        value,
    );
}

/// Whether a value leads to a cell does not depend on the bound, once the value is
/// ranked below it.
pub proof fn lemma_leads_any_bound<F>(
    cells: Seq<Value<F>>,
    ranks: Seq<nat>,
    a: nat,
    b: nat,
    v: Value<F>,
    target: usize,
)
    requires
        ranked(v, ranks, a),
        ranked(v, ranks, b),
    ensures
        leads_to(cells, ranks, a, v, target) == leads_to(cells, ranks, b, v, target),
    decreases v,
{
    match v {
        Value::List(items) => {
            assert forall|i: int| 0 <= i < items@.len() implies leads_to(
                cells,
                ranks,
                a,
                #[trigger] items@[i],
                target,
            ) == leads_to(cells, ranks, b, items@[i], target) by {
                lemma_leads_any_bound(cells, ranks, a, b, items@[i], target);
            }
        },
        Value::Mapping(entries) => {
            assert forall|i: int| 0 <= i < entries@.len() implies leads_to(
                cells,
                ranks,
                a,
                (#[trigger] entries@[i]).1,
                target,
            ) == leads_to(cells, ranks, b, entries@[i].1, target) by {
                lemma_leads_any_bound(cells, ranks, a, b, entries@[i].1, target);
            }
        },
        _ => {},
    }
}

/// A value that is ranked no higher than a cell does not lead to the cell.
pub proof fn lemma_ranked_below_leads_nowhere<F>(
    cells: Seq<Value<F>>,
    ranks: Seq<nat>,
    bound: nat,
    v: Value<F>,
    target: usize,
)
    requires
        ranks.len() == cells.len(),
        forall|i: int| 0 <= i < cells.len() ==> ranked(#[trigger] cells[i], ranks, ranks[i]),
        target < ranks.len(),
        ranked(v, ranks, bound),
        bound <= ranks[target as int],
    ensures
        !leads_to(cells, ranks, bound, v, target),
    decreases bound, v,
{
    match v {
        Value::List(items) => {
            assert forall|i: int| 0 <= i < items@.len() implies !leads_to(
                cells,
                ranks,
                bound,
                #[trigger] items@[i],
                target,
            ) by {
                lemma_ranked_below_leads_nowhere(cells, ranks, bound, items@[i], target);
            }
        },
        Value::Mapping(entries) => {
            assert forall|i: int| 0 <= i < entries@.len() implies !leads_to(
                cells,
                ranks,
                bound,
                (#[trigger] entries@[i]).1,
                target,
            ) by {
                lemma_ranked_below_leads_nowhere(cells, ranks, bound, entries@[i].1, target);
            }
        },
        Value::Share(cell) => {
            lemma_ranked_below_leads_nowhere(
                cells,
                ranks,
                ranks[cell as int],
                cells[cell as int],
                target,
            );
        },
        _ => {},
    }
}

/// What a value stands for stays the same when a cell that it does not lead to gets
/// new contents.
pub proof fn lemma_resolve_elsewhere<F>(
    cells: Seq<Value<F>>,
    ranks: Seq<nat>,
    bound: nat,
    changed: Seq<Value<F>>,
    changed_ranks: Seq<nat>,
    changed_bound: nat,
    v: Value<F>,
    target: usize,
)
    requires
        ranks.len() == cells.len(),
        changed.len() == cells.len(),
        changed_ranks.len() == cells.len(),
        forall|i: int| 0 <= i < cells.len() && i != target ==> changed[i] == cells[i],
        forall|i: int| 0 <= i < cells.len() ==> ranked(#[trigger] cells[i], ranks, ranks[i]),
        forall|i: int|
            0 <= i < cells.len() ==> ranked(#[trigger] changed[i], changed_ranks, changed_ranks[i]),
        ranked(v, ranks, bound),
        ranked(v, changed_ranks, changed_bound),
        !leads_to(cells, ranks, bound, v, target),
    ensures
        resolve(changed, changed_ranks, changed_bound, v) == resolve(cells, ranks, bound, v),
    decreases bound, v,
{
    match v {
        Value::List(items) => {
            assert forall|i: int| 0 <= i < items@.len() implies resolve(
                changed,
                changed_ranks,
                changed_bound,
                items@[i],
            ) == resolve(cells, ranks, bound, items@[i]) by {
                lemma_resolve_elsewhere(
                    cells,
                    ranks,
                    bound,
                    changed,
                    changed_ranks,
                    changed_bound,
                    items@[i],
                    target,
                );
            }
            assert(resolve(changed, changed_ranks, changed_bound, v)->List_0 =~= resolve(
                cells,
                ranks,
                bound,
                v,
            )->List_0);
        },
        Value::Mapping(entries) => {
            assert forall|i: int| 0 <= i < entries@.len() implies resolve(
                changed,
                changed_ranks,
                changed_bound,
                entries@[i].1,
            ) == resolve(cells, ranks, bound, entries@[i].1) by {
                lemma_resolve_elsewhere(
                    cells,
                    ranks,
                    bound,
                    changed,
                    changed_ranks,
                    changed_bound,
                    entries@[i].1,
                    target,
                );
            }
            assert(resolve(changed, changed_ranks, changed_bound, v)->Mapping_0 =~= resolve(
                cells,
                ranks,
                bound,
                v,
            )->Mapping_0);
        },
        Value::Share(cell) => {
            lemma_resolve_elsewhere(
                cells,
                ranks,
                ranks[cell as int],
                changed,
                changed_ranks,
                changed_ranks[cell as int],
                cells[cell as int],
                target,
            );
        },
        _ => {},
    }
}

/// A write through a handle changes nothing for a value that does not lead to the
/// cell of the handle: it stands for what it stood for.
pub proof fn lemma_write_elsewhere<F>(
    before: Store<F>,
    after: Store<F>,
    cell: usize,
    value: Value<F>,
    v: Value<F>,
)
    requires
        before.well_formed(),
        after.well_formed(),
        cell < before.cells().len(),
        after.cells() == before.cells().update(cell as int, value),
        before.holds(v),
        !before.leads(v, cell),
    ensures
        after.holds(v),
        after.model(v) == before.model(v),
{
    before.lemma_holds_ranked(v);
    after.lemma_holds_ranked(v);
    lemma_resolve_elsewhere(
        before.cells(),
        before.ranks(),
        before.top(),
        after.cells(),
        after.ranks(),
        after.top(),
        v,
        cell,
    );
}

/// A copy and what it was made of change apart: a copy of what a cell holds stands
/// for the same after the cell got new contents.
pub proof fn lemma_copy_is_apart<F>(
    before: Store<F>,
    after: Store<F>,
    cell: usize,
    value: Value<F>,
    copy: Value<F>,
)
    requires
        before.well_formed(),
        after.well_formed(),
        cell < before.cells().len(),
        after.cells() == before.cells().update(cell as int, value),
        alike(copy, before.content(Value::Share(cell))),
    ensures
        after.holds(copy),
        after.model(copy) == before.model(copy),
{
    let cells = before.cells();
    let ranks = before.ranks();
    let held = cells[cell as int];
    lemma_ranked_below_leads_nowhere(cells, ranks, ranks[cell as int], held, cell);
    lemma_ranked_higher(held, ranks, ranks[cell as int], before.top());
    lemma_leads_any_bound(cells, ranks, ranks[cell as int], before.top(), held, cell);
    lemma_alike(cells, ranks, before.top(), copy, held);
    lemma_ranked_fits(held, ranks, before.top());
    lemma_write_elsewhere(before, after, cell, value, copy);
}

/// A value that is ranked names cells that have ranks.
pub proof fn lemma_ranked_fits<F>(v: Value<F>, ranks: Seq<nat>, bound: nat)
    requires
        ranked(v, ranks, bound),
    ensures
        fits(v, ranks.len()),
    decreases v,
{
    match v {
        Value::List(items) => {
            assert forall|i: int| 0 <= i < items@.len() implies fits(
                #[trigger] items@[i],
                ranks.len(),
            ) by {
                lemma_ranked_fits(items@[i], ranks, bound);
            }
        },
        Value::Mapping(entries) => {
            assert forall|i: int| 0 <= i < entries@.len() implies fits(
                (#[trigger] entries@[i]).1,
                ranks.len(),
            ) by {
                lemma_ranked_fits(entries@[i].1, ranks, bound);
            }
        },
        _ => {},
    }
}

/// Two entries of a map in which no key occurs twice have different keys.
pub proof fn lemma_keys_differ<F>(v: Value<F>, k: int, i: int)
    requires
        v is Mapping,
        0 <= k < i < v->Mapping_0@.len(),
        keyed(v),
    ensures
        v->Mapping_0@[k].0@ != v->Mapping_0@[i].0@,
{
}

/// A list of trees in which no key occurs twice is such a tree.
pub proof fn lemma_plain_list_keyed<F>(items: Seq<Plain<F>>)
    requires
        forall|i: int| 0 <= i < items.len() ==> plain_keyed(#[trigger] items[i]),
    ensures
        plain_keyed(Plain::List(items)),
{
}

/// A map of trees in which no key occurs twice, under keys that each occur once, is
/// such a tree.
pub proof fn lemma_plain_map_keyed<F>(entries: Seq<(Seq<char>, Plain<F>)>)
    requires
        forall|i: int| 0 <= i < entries.len() ==> plain_keyed((#[trigger] entries[i]).1),
        forall|i: int, j: int|
            0 <= i < j < entries.len() ==> (#[trigger] entries[i]).0 != (#[trigger] entries[j]).0,
    ensures
        plain_keyed(Plain::Mapping(entries)),
{
}

/// Whether no map in a value holds a key twice.
pub fn has_distinct_keys<F>(value: &Value<F>) -> (out: bool)
    ensures
        out == keyed(*value),
    decreases *value,
{
    match value {
        Value::List(items) => {
            let mut i: usize = 0;
            while i < items.len()
                invariant
                    *value == Value::List(*items),
                    i <= items.len(),
                    forall|k: int| 0 <= k < i ==> keyed(#[trigger] items@[k]),
                decreases items.len() - i,
            {
                proof {
                    lemma_list_item(*value, 0, i as int);
                }
                if !has_distinct_keys(&items[i]) {
                    return false;
                }
                i += 1;
            }
            true
        },
        Value::Mapping(entries) => {
            let mut i: usize = 0;
            while i < entries.len()
                invariant
                    *value == Value::Mapping(*entries),
                    i <= entries.len(),
                    forall|k: int| 0 <= k < i ==> keyed((#[trigger] entries@[k]).1),
                    forall|k: int, j: int|
                        0 <= k < j < i ==> (#[trigger] entries@[k]).0@ != (#[trigger] entries@[j]).0@,
                decreases entries.len() - i,
            {
                proof {
                    lemma_map_value(*value, 0, i as int);
                }
                if !has_distinct_keys(&entries[i].1) {
                    return false;
                }
                let mut k: usize = 0;
                while k < i
                    invariant
                        *value == Value::Mapping(*entries),
                        k <= i < entries.len(),
                        forall|j: int| 0 <= j < k ==> (#[trigger] entries@[j]).0@ != entries@[i as int].0@,
                    decreases i - k,
                {
                    if same_text(entries[k].0.as_str(), entries[i].0.as_str()) {
                        proof {
                            if keyed(*value) {
                                lemma_keys_differ(*value, k as int, i as int);
                            }
                        }
                        return false;
                    }
                    k += 1;
                }
                i += 1;
            }
            true
        },
        _ => true,
    }
}

/// Where no map in a value or in a cell holds a key twice, no map in what the value
/// stands for does.
pub proof fn lemma_resolve_keyed<F>(cells: Seq<Value<F>>, ranks: Seq<nat>, bound: nat, v: Value<F>)
    requires
        forall|i: int| 0 <= i < cells.len() ==> keyed(#[trigger] cells[i]),
        keyed(v),
    ensures
        plain_keyed(resolve(cells, ranks, bound, v)),
    decreases bound, v,
{
    match v {
        Value::List(items) => {
            let out = resolve(cells, ranks, bound, v)->List_0;
            assert(out.len() == items@.len());
            assert forall|i: int| 0 <= i < out.len() implies plain_keyed(#[trigger] out[i]) by {
                assert(keyed(items@[i]));
                lemma_resolve_keyed(cells, ranks, bound, items@[i]);
                assert(out[i] == resolve(cells, ranks, bound, items@[i]));
            }
            lemma_plain_list_keyed(out);
        },
        Value::Mapping(entries) => {
            let out = resolve(cells, ranks, bound, v)->Mapping_0;
            assert(out.len() == entries@.len());
            assert forall|i: int| 0 <= i < out.len() implies plain_keyed((#[trigger] out[i]).1) by {
                assert(keyed(entries@[i].1));
                lemma_resolve_keyed(cells, ranks, bound, entries@[i].1);
                assert(out[i].1 == resolve(cells, ranks, bound, entries@[i].1));
            }
            assert forall|i: int, j: int| 0 <= i < j < out.len() implies (#[trigger] out[i]).0 != (
            #[trigger] out[j]).0 by {
                assert(entries@[i].0@ != entries@[j].0@);
                assert(out[i].0 == entries@[i].0@);
                assert(out[j].0 == entries@[j].0@);
            }
            lemma_plain_map_keyed(out);
        },
        Value::Share(cell) => {
            if cell < cells.len() && cell < ranks.len() && ranks[cell as int] < bound {
                lemma_resolve_keyed(cells, ranks, ranks[cell as int], cells[cell as int]);
            } else {
                assert(plain_keyed(Plain::<F>::Empty));
            }
        },
        _ => {},
    }
}

impl<F> Store<F> {
    /// No map in what a value of a well-formed store stands for holds a key twice.
    pub proof fn lemma_model_keyed(&self, v: Value<F>)
        requires
            self.well_formed(),
            self.holds(v),
        ensures
            plain_keyed(self.model(v)),
    {
        lemma_resolve_keyed(self.cells(), self.ranks(), self.top(), v);
    }
}

} // verus!
