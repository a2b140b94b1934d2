//! Type names and display text of values.

use vstd::prelude::*;
use std::rc::Rc;
use crate::constant_pool::{Constant, ConstantPool, Literal};
use crate::text::{
    decimal, push_decimal, push_signed_decimal, push_text, signed_decimal, string_of,
};
use crate::value::{lemma_list_item, ranked, resolve, BuiltinFunction, Plain, Store, Value};

verus! {

/// The name of a value's kind. A `Share` is named after what its cell holds, or,
/// where the cell holds a `Share` itself, after what that one's cell holds.
pub open spec fn kind_text<F>(p: Plain<F>) -> Seq<char>
    decreases p,
{
    match p {
        Plain::Empty => "Empty"@,
        Plain::Bool(_) => "Bool"@,
        Plain::Number(_) => "Number"@,
        Plain::Vec4(_) => "Vec4"@,
        Plain::List(_) => "List"@,
        Plain::Range { .. } => "Range"@,
        Plain::IndexRange { .. } => "IndexRange"@,
        Plain::Mapping(_) => "Map"@,
        Plain::Str(_) => "String"@,
        Plain::Share { content, .. } => match *content {
            Plain::Share { content: inner, .. } => "Share("@ + kind_text(*inner) + ")"@,
            held => "Share("@ + kind_text(held) + ")"@,
        },
        Plain::Function(_) => "Function"@,
        Plain::BuiltinFunction(_) => "BuiltinFunction"@,
        Plain::BuiltinValue(f) => f.kind@,
        Plain::For(_) => "For"@,
        Plain::While(_) => "While"@,
    }
}

/// Appends the name of a value's kind.
fn push_kind<F>(out: &mut Vec<char>, store: &Store<F>, value: &Value<F>, Ghost(limit): Ghost<nat>)
    requires
        store.well_formed(),
        ranked(*value, store.ranks(), limit),
    ensures
        final(out)@ == old(out)@ + kind_text(
            resolve(store.cells(), store.ranks(), limit, *value),
        ),
    decreases limit,
{
    match value {
        Value::Empty => push_text(out, "Empty"),
        Value::Bool(_) => push_text(out, "Bool"),
        Value::Number(_) => push_text(out, "Number"),
        Value::Vec4(_) => push_text(out, "Vec4"),
        Value::List(_) => push_text(out, "List"),
        Value::Range { .. } => push_text(out, "Range"),
        Value::IndexRange { .. } => push_text(out, "IndexRange"),
        Value::Mapping(_) => push_text(out, "Map"),
        Value::Str(_) => push_text(out, "String"),
        Value::Share(cell) => {
            let held = store.cell(*cell);
            let ghost cells = store.cells();
            let ghost ranks = store.ranks();
            let ghost rank = ranks[*cell as int];
            let ghost behind = resolve(cells, ranks, rank, *held);
            assert(resolve(cells, ranks, limit, *value) == Plain::Share {
                cell: *cell,
                content: Box::new(behind),
            });
            assert(ranked(*held, ranks, rank));
            push_text(out, "Share(");
            match held {
                Value::Share(inner) => {
                    let ghost further = resolve(
                        cells,
                        ranks,
                        ranks[*inner as int],
                        cells[*inner as int],
                    );
                    assert(behind == Plain::Share { cell: *inner, content: Box::new(further) });
                    push_kind(out, store, store.cell(*inner), Ghost(ranks[*inner as int]));
                    assert(kind_text(resolve(cells, ranks, limit, *value)) == "Share("@
                        + kind_text(further) + ")"@);
                },
                _ => {
                    push_kind(out, store, held, Ghost(rank));
                    assert(!(behind is Share));
                    assert(kind_text(resolve(cells, ranks, limit, *value)) == "Share("@
                        + kind_text(behind) + ")"@);
                },
            }
            push_text(out, ")");
            assert(out@ =~= old(out)@ + kind_text(resolve(cells, ranks, limit, *value)));
        },
        Value::Function(_) => push_text(out, "Function"),
        Value::BuiltinFunction(_) => push_text(out, "BuiltinFunction"),
        Value::BuiltinValue(f) => push_text(out, f.kind.as_str()),
        Value::For(_) => push_text(out, "For"),
        Value::While(_) => push_text(out, "While"),
    }
}

/// The name of a value's kind.
pub fn type_as_string<F>(store: &Store<F>, value: &Value<F>) -> (name: String)
    requires
        store.well_formed(),
        store.holds(*value),
    ensures
        name@ == kind_text(store.model(*value)),
{
    let mut out: Vec<char> = Vec::new();
    proof {
        store.lemma_holds_ranked(*value);
    }
    push_kind(&mut out, store, value, Ghost(store.top()));
    string_of(&out)
}

/// One element of a value's display text.
///
/// The text is made of characters and of places for what only the host can write
/// out: a number, the identity of an allocation, a foreign value.
#[derive(Clone, Debug)]
pub enum Glyph<F> {
    /// A character.
    Letter(char),
    /// A double, by its bits.
    Number(u64),
    /// A single, by its bits.
    Single(u32),
    /// The identity of the allocation of a function.
    Identity(usize),
    /// The identity of the allocation behind a map.
    MapIdentity(Rc<Vec<(String, Value<F>)>>),
    /// A foreign value.
    Foreign(Rc<F>),
}

/// A text as glyphs.
pub open spec fn glyphs_of<F>(s: Seq<char>) -> Seq<Glyph<F>>
    decreases s.len(),
{
    if s.len() == 0 {
        Seq::empty()
    } else {
        glyphs_of(s.drop_last()).push(Glyph::Letter(s.last()))
    }
}

/// The first `n` keys of a map, a space before the first and a comma and a space
/// before each of the others.
pub open spec fn shown_keys<F>(entries: Seq<(String, Value<F>)>, n: nat) -> Seq<Glyph<F>>
    decreases n,
{
    if n == 0 || n > entries.len() {
        Seq::empty()
    } else {
        shown_keys(entries, (n - 1) as nat) + glyphs_of(
            if n == 1 {
                " "@
            } else {
                ", "@
            },
        ) + glyphs_of(entries[n - 1].0@)
    }
}

/// The display text of a value.
///
/// A map shows the identity of its allocation and its keys, not what it holds. A
/// `Share` shows what its cell holds, or, where the cell holds a `Share` itself, what
/// that one's cell holds. A function shows the identity of its allocation only.
pub open spec fn shown<F>(cells: Seq<Value<F>>, ranks: Seq<nat>, limit: nat, v: Value<F>) -> Seq<
    Glyph<F>,
>
    decreases limit, v,
{
    match v {
        Value::Empty => glyphs_of("()"@),
        Value::Bool(b) => glyphs_of(
            if b {
                "true"@
            } else {
                "false"@
            },
        ),
        Value::Number(n) => seq![Glyph::Number(n)],
        Value::Vec4(n) => glyphs_of("("@) + seq![Glyph::Single(n.x)] + glyphs_of(", "@)
            + seq![Glyph::Single(n.y)] + glyphs_of(", "@) + seq![Glyph::Single(n.z)] + glyphs_of(", "@)
            + seq![Glyph::Single(n.w)] + glyphs_of(")"@),
        Value::Str(s) => glyphs_of(s@),
        Value::List(items) => glyphs_of("["@) + shown_items(
            cells,
            ranks,
            limit,
            items@,
            items@.len(),
        ) + glyphs_of("]"@),
        Value::Mapping(entries) => glyphs_of("Map "@) + seq![Glyph::MapIdentity(entries)] + glyphs_of(
            " {"@,
        ) + shown_keys(entries@, entries@.len()) + glyphs_of(" }"@),
        Value::Range { start, end } => glyphs_of(
            "["@ + signed_decimal(start as int) + ".."@ + signed_decimal(end as int) + "]"@,
        ),
        Value::IndexRange { start, end } => glyphs_of(
            "["@ + decimal(start as nat) + ".."@ + (match end {
                Some(n) => decimal(n as nat),
                None => Seq::empty(),
            }) + "]"@,
        ),
        Value::Share(cell) => glyphs_of("Share: "@) + (if cell < cells.len() && cell < ranks.len()
            && ranks[cell as int] < limit {
            match cells[cell as int] {
                Value::Share(inner) => if inner < cells.len() && inner < ranks.len()
                    && ranks[inner as int] < ranks[cell as int] {
                    shown(cells, ranks, ranks[inner as int], cells[inner as int])
                } else {
                    Seq::empty()
                },
                held => shown(cells, ranks, ranks[cell as int], held),
            }
        } else {
            Seq::empty()
        }),
        Value::Function(f) => glyphs_of("Function: "@) + seq![Glyph::Identity(f)],
        Value::BuiltinFunction(f) => glyphs_of("Builtin function: "@) + seq![
            Glyph::Identity(f.function),
        ],
        Value::BuiltinValue(f) => seq![Glyph::Foreign(f.payload)],
        Value::For(_) => glyphs_of("For loop"@),
        Value::While(_) => glyphs_of("While loop"@),
    }
}

/// The display text of the first `n` items of a list, a comma and a space between
/// one and the next.
pub open spec fn shown_items<F>(
    cells: Seq<Value<F>>,
    ranks: Seq<nat>,
    limit: nat,
    items: Seq<Value<F>>,
    n: nat,
) -> Seq<Glyph<F>>
    decreases limit, items, n,
{
    if n == 0 || n > items.len() {
        Seq::empty()
    } else if n == 1 {
        shown(cells, ranks, limit, items[0])
    } else {
        shown_items(cells, ranks, limit, items, (n - 1) as nat) + glyphs_of(", "@) + shown(
            cells,
            ranks,
            limit,
            items[n - 1],
        )
    }
}

/// A glyph added after two joined texts is added to the second.
proof fn lemma_push_joined<F>(a: Seq<Glyph<F>>, b: Seq<Glyph<F>>, x: Glyph<F>)
    ensures
        (a + b).push(x) == a + b.push(x),
{
    assert((a + b).push(x) =~= a + b.push(x));
}

/// Appends a text as glyphs.
fn push_chars<F>(out: &mut Vec<Glyph<F>>, text: &Vec<char>)
    ensures
        final(out)@ == old(out)@ + glyphs_of::<F>(text@),
{
    let ghost start = out@;
    let mut i: usize = 0;
    assert(out@ =~= start + glyphs_of::<F>(text@.take(0)));
    while i < text.len()
        invariant
            i <= text.len(),
            out@ == start + glyphs_of::<F>(text@.take(i as int)),
        decreases text.len() - i,
    {
        let ghost before = text@.take(i as int);
        out.push(Glyph::Letter(text[i]));
        i += 1;
        proof {
            assert(text@.take(i as int).drop_last() =~= before);
            lemma_push_joined(start, glyphs_of::<F>(before), Glyph::Letter(text@[i - 1]));
        }
    }
    assert(text@.take(text.len() as int) =~= text@);
}

/// Appends a string slice as glyphs.
fn push_str<F>(out: &mut Vec<Glyph<F>>, text: &str)
    ensures
        final(out)@ == old(out)@ + glyphs_of::<F>(text@),
{
    let mut buffer: Vec<char> = Vec::new();
    push_text(&mut buffer, text);
    assert(buffer@ =~= text@);
    push_chars(out, &buffer);
}

/// Appends the keys of a map.
fn push_keys<F>(out: &mut Vec<Glyph<F>>, entries: &Vec<(String, Value<F>)>)
    ensures
        final(out)@ == old(out)@ + shown_keys(entries@, entries@.len()),
{
    let mut i: usize = 0;
    while i < entries.len()
        invariant
            i <= entries.len(),
            out@ == old(out)@ + shown_keys(entries@, i as nat),
        decreases entries.len() - i,
    {
        if i == 0 {
            push_str(out, " ");
        } else {
            push_str(out, ", ");
        }
        push_str(out, entries[i].0.as_str());
        i += 1;
        assert(out@ =~= old(out)@ + shown_keys(entries@, i as nat));
    }
}

/// Appends the display text of a value.
fn push_shown<F>(
    out: &mut Vec<Glyph<F>>,
    store: &Store<F>,
    value: &Value<F>,
    Ghost(limit): Ghost<nat>,
)
    requires
        store.well_formed(),
        ranked(*value, store.ranks(), limit),
    ensures
        final(out)@ == old(out)@ + shown(store.cells(), store.ranks(), limit, *value),
    decreases limit, *value,
{
    let ghost cells = store.cells();
    let ghost ranks = store.ranks();
    match value {
        Value::Empty => push_str(out, "()"),
        Value::Bool(b) => {
            if *b {
                push_str(out, "true")
            } else {
                push_str(out, "false")
            }
        },
        Value::Number(n) => {
            out.push(Glyph::Number(*n));
            assert(out@ =~= old(out)@ + shown(cells, ranks, limit, *value));
        },
        Value::Vec4(n) => {
            push_str(out, "(");
            out.push(Glyph::Single(n.x));
            push_str(out, ", ");
            out.push(Glyph::Single(n.y));
            push_str(out, ", ");
            out.push(Glyph::Single(n.z));
            push_str(out, ", ");
            out.push(Glyph::Single(n.w));
            push_str(out, ")");
            assert(out@ =~= old(out)@ + shown(cells, ranks, limit, *value));
        },
        Value::Str(s) => push_str(out, s.as_str()),
        Value::List(items) => {
            push_str(out, "[");
            let ghost start = out@;
            let mut i: usize = 0;
            while i < items.len()
                invariant
                    store.well_formed(),
                    cells == store.cells(),
                    ranks == store.ranks(),
                    *value == Value::List(*items),
                    ranked(*value, ranks, limit),
                    i <= items.len(),
                    out@ == start + shown_items(cells, ranks, limit, items@, i as nat),
                decreases items.len() - i,
            {
                proof {
                    lemma_list_item(*value, 0, i as int);
                    assert(ranked(items@[i as int], ranks, limit));
                }
                if i > 0 {
                    push_str(out, ", ");
                }
                push_shown(out, store, &items[i], Ghost(limit));
                i += 1;
                assert(out@ =~= start + shown_items(cells, ranks, limit, items@, i as nat));
            }
            push_str(out, "]");
            assert(out@ =~= old(out)@ + shown(cells, ranks, limit, *value));
        },
        Value::Mapping(entries) => {
            push_str(out, "Map ");
            out.push(Glyph::MapIdentity(entries.clone()));
            push_str(out, " {");
            push_keys(out, entries);
            push_str(out, " }");
            assert(out@ =~= old(out)@ + shown(cells, ranks, limit, *value));
        },
        Value::Range { start, end } => {
            let mut text: Vec<char> = Vec::new();
            text.push('[');
            push_signed_decimal(&mut text, *start as i64);
            text.push('.');
            text.push('.');
            push_signed_decimal(&mut text, *end as i64);
            text.push(']');
            proof {
                reveal_strlit("[");
                reveal_strlit("..");
                reveal_strlit("]");
            }
            assert(text@ =~= "["@ + signed_decimal(*start as int) + ".."@ + signed_decimal(
                *end as int,
            ) + "]"@);
            push_chars(out, &text);
        },
        Value::IndexRange { start, end } => {
            let mut text: Vec<char> = Vec::new();
            text.push('[');
            push_decimal(&mut text, *start as u64);
            text.push('.');
            text.push('.');
            match end {
                Some(n) => push_decimal(&mut text, *n as u64),
                None => {},
            }
            text.push(']');
            proof {
                reveal_strlit("[");
                reveal_strlit("..");
                reveal_strlit("]");
            }
            assert(text@ =~= "["@ + decimal(*start as nat) + ".."@ + (match *end {
                Some(n) => decimal(n as nat),
                None => Seq::empty(),
            }) + "]"@);
            push_chars(out, &text);
        },
        Value::Share(cell) => {
            push_str(out, "Share: ");
            let held = store.cell(*cell);
            assert(ranked(*held, ranks, ranks[*cell as int]));
            match held {
                Value::Share(inner) => {
                    push_shown(out, store, store.cell(*inner), Ghost(ranks[*inner as int]));
                },
                _ => {
                    push_shown(out, store, held, Ghost(ranks[*cell as int]));
                },
            }
            assert(out@ =~= old(out)@ + shown(cells, ranks, limit, *value));
        },
        Value::Function(f) => {
            push_str(out, "Function: ");
            out.push(Glyph::Identity(*f));
            assert(out@ =~= old(out)@ + shown(cells, ranks, limit, *value));
        },
        Value::BuiltinFunction(f) => {
            push_str(out, "Builtin function: ");
            out.push(Glyph::Identity(f.function));
            assert(out@ =~= old(out)@ + shown(cells, ranks, limit, *value));
        },
        Value::BuiltinValue(f) => {
            out.push(Glyph::Foreign(f.payload.clone()));
            assert(out@ =~= old(out)@ + shown(cells, ranks, limit, *value));
        },
        Value::For(_) => push_str(out, "For loop"),
        Value::While(_) => push_str(out, "While loop"),
    }
}

impl<F> Store<F> {
    /// The display text of a value of this store.
    pub open spec fn shown(&self, v: Value<F>) -> Seq<Glyph<F>> {
        shown(self.cells(), self.ranks(), self.top(), v)
    }
}

/// The display text of a value of a store.
pub fn display<F>(store: &Store<F>, value: &Value<F>) -> (out: Vec<Glyph<F>>)
    requires
        store.well_formed(),
        store.holds(*value),
    ensures
        out@ == store.shown(*value),
{
    let mut out: Vec<Glyph<F>> = Vec::new();
    proof {
        store.lemma_holds_ranked(*value);
    }
    push_shown(&mut out, store, value, Ghost(store.top()));
    out
}

/// The line that lists one constant of a pool: its index, its kind and what it holds,
/// with a tab between them.
pub open spec fn shown_constant<F>(index: nat, literal: Literal) -> Seq<Glyph<F>> {
    glyphs_of(decimal(index)) + glyphs_of("\t"@) + (match literal {
        Literal::F64(bits) => glyphs_of("Float\t"@) + seq![Glyph::Number(bits)],
        Literal::I64(n) => glyphs_of("Int\t"@) + glyphs_of(signed_decimal(n as int)),
        Literal::Str(text) => glyphs_of("String\t"@) + glyphs_of(text),
    }) + glyphs_of("\n"@)
}

/// The lines that list the first `n` constants of a pool.
pub open spec fn shown_constants<F>(literals: Seq<Literal>, n: nat) -> Seq<Glyph<F>>
    decreases n,
{
    if n == 0 || n > literals.len() {
        Seq::empty()
    } else {
        shown_constants(literals, (n - 1) as nat) + shown_constant((n - 1) as nat, literals[n - 1])
    }
}

/// Lists the constants of a pool, one to a line, in the order of their indices.
pub fn display_pool<F>(pool: &ConstantPool) -> (out: Vec<Glyph<F>>)
    requires
        pool.well_formed(),
    ensures
        out@ == shown_constants::<F>(pool@, pool@.len()),
{
    let mut out: Vec<Glyph<F>> = Vec::new();
    let mut i: usize = 0;
    assert(out@ =~= shown_constants::<F>(pool@, 0));
    while i < pool.size()
        invariant
            pool.well_formed(),
            i <= pool@.len(),
            out@ == shown_constants::<F>(pool@, i as nat),
        decreases pool@.len() - i,
    {
        let ghost before = out@;
        let mut number: Vec<char> = Vec::new();
        push_decimal(&mut number, i as u64);
        assert(number@ =~= decimal(i as nat));
        push_chars(&mut out, &number);
        push_str(&mut out, "\t");
        match pool.get(i) {
            Some(Constant::F64(bits)) => {
                push_str(&mut out, "Float\t");
                out.push(Glyph::Number(bits));
            },
            Some(Constant::I64(n)) => {
                push_str(&mut out, "Int\t");
                let mut text: Vec<char> = Vec::new();
                push_signed_decimal(&mut text, n);
                assert(text@ =~= signed_decimal(n as int));
                push_chars(&mut out, &text);
            },
            Some(Constant::Str(text)) => {
                push_str(&mut out, "String\t");
                push_str(&mut out, text);
            },
            None => {},
        }
        push_str(&mut out, "\n");
        assert(out@ =~= before + shown_constant::<F>(i as nat, pool@[i as int]));
        i += 1;
    }
    out
}

/// The text that stands for a function of the host where it is debugged: what kind
/// of function it is, and the identity of its allocation.
pub open spec fn shown_builtin<F>(function: BuiltinFunction) -> Seq<Glyph<F>> {
    glyphs_of("builtin "@) + glyphs_of(
        if function.is_instance_function {
            "instance "@
        } else {
            ""@
        },
    ) + glyphs_of("function: "@) + seq![Glyph::Identity(function.function)]
}

/// Renders a function of the host for debugging.
pub fn debug_builtin<F>(function: &BuiltinFunction) -> (out: Vec<Glyph<F>>)
    ensures
        out@ == shown_builtin::<F>(*function),
{
    let mut out: Vec<Glyph<F>> = Vec::new();
    push_str(&mut out, "builtin ");
    if function.is_instance_function {
        push_str(&mut out, "instance ");
    } else {
        push_str(&mut out, "");
    }
    push_str(&mut out, "function: ");
    out.push(Glyph::Identity(function.function));
    assert(out@ =~= shown_builtin::<F>(*function));
    out
}

} // verus!
