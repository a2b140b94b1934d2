//! The constants of a script: each distinct literal once, under an index that
//! compiled code can refer to.

use vstd::prelude::*;
use vstd::bytes::{spec_u64_to_le_bytes, u64_to_le_bytes};
use vstd::std_specs::cmp::PartialEqSpec;
use vstd::std_specs::hash::DefaultHasherAdditionalSpecFns;
use vstd::string::StringSliceAdditionalSpecFns;
use vstd::utf8::{decode_utf8, encode_utf8, is_char_boundary, valid_utf8};
use std::collections::hash_map::DefaultHasher;
use std::collections::HashMap;
use std::hash::{Hash, Hasher};
use crate::constant_index::{ConstantIndex, ConstantIndexTryFromOutOfRange, MAX_CONSTANT_INDEX};

verus! {

/// A literal as it is met in a script: a double by its bits, an integer, or a string.
pub enum Literal {
    F64(u64),
    I64(i64),
    Str(Seq<char>),
}

/// How a pool keeps a constant. A string is kept as the range of bytes that it takes
/// up in the pool's string data.
#[derive(Clone, Copy, Debug, PartialEq, Eq, Structural)]
pub enum ConstantEntry {
    F64(u64),
    I64(i64),
    Str { start: usize, end: usize },
}

/// A constant as a pool hands it out.
#[derive(Clone, Debug, PartialEq)]
pub enum Constant<'a> {
    /// A double, by its bits.
    F64(u64),
    /// An integer.
    I64(i64),
    /// A string.
    Str(&'a str),
}

impl<'a> Constant<'a> {
    /// The literal that the constant stands for.
    pub open spec fn literal(self) -> Literal {
        match self {
            Constant::F64(bits) => Literal::F64(bits),
            Constant::I64(n) => Literal::I64(n),
            Constant::Str(s) => Literal::Str(s@),
        }
    }
}

/// Whether the range of a string entry lies in the string data, from one character
/// boundary to another.
pub open spec fn entry_in_bounds(entry: ConstantEntry, bytes: Seq<u8>) -> bool {
    match entry {
        ConstantEntry::Str { start, end } => {
            &&& start <= end <= bytes.len()
            &&& is_char_boundary(bytes, start as int)
            &&& is_char_boundary(bytes, end as int)
        },
        _ => true,
    }
}

/// The literal that an entry stands for, given the string data.
pub open spec fn literal_of(entry: ConstantEntry, bytes: Seq<u8>) -> Literal {
    match entry {
        ConstantEntry::F64(bits) => Literal::F64(bits),
        ConstantEntry::I64(n) => Literal::I64(n),
        ConstantEntry::Str { start, end } => Literal::Str(
            decode_utf8(bytes.subrange(start as int, end as int)),
        ),
    }
}

/// The literals that a list of entries stands for, in the order of the entries.
pub open spec fn literals_of(entries: Seq<ConstantEntry>, bytes: Seq<u8>) -> Seq<Literal> {
    Seq::new(entries.len(), |i: int| literal_of(entries[i], bytes))
}

/// The first place of a literal among others, if it is there.
pub open spec fn position_of(literals: Seq<Literal>, literal: Literal) -> Option<nat>
    decreases literals.len(),
{
    if literals.len() == 0 {
        None
    } else {
        match position_of(literals.drop_last(), literal) {
            Some(i) => Some(i),
            None => if literals.last() == literal {
                Some((literals.len() - 1) as nat)
            } else {
                None
            },
        }
    }
}

/// The index under which a literal is found after it has been added: the one it had,
/// or the next free one, or none where the literal is new and every index is taken.
pub open spec fn granted_index(literals: Seq<Literal>, literal: Literal) -> Option<nat> {
    match position_of(literals, literal) {
        Some(i) => Some(i),
        None => if literals.len() <= MAX_CONSTANT_INDEX {
            Some(literals.len())
        } else {
            None
        },
    }
}

/// The literals after one has been added: the same where it was there already or
/// every index is taken, and else with the new one at the end.
pub open spec fn after_adding(literals: Seq<Literal>, literal: Literal) -> Seq<Literal> {
    if position_of(literals, literal) is None && literals.len() <= MAX_CONSTANT_INDEX {
        literals.push(literal)
    } else {
        literals
    }
}

/// The texts of the strings among some literals, one after the other.
pub open spec fn joined_text(literals: Seq<Literal>) -> Seq<char>
    decreases literals.len(),
{
    if literals.len() == 0 {
        Seq::empty()
    } else {
        joined_text(literals.drop_last()) + (match literals.last() {
            Literal::Str(text) => text,
            _ => Seq::empty(),
        })
    }
}

/// The range of bytes that the literal at `index` takes up where the strings among
/// the literals lie end to end: from the length of those before it to the length of
/// those up to it.
pub open spec fn string_bounds(literals: Seq<Literal>, index: int) -> (int, int) {
    (
        encode_utf8(joined_text(literals.take(index))).len() as int,
        encode_utf8(joined_text(literals.take(index + 1))).len() as int,
    )
}

/// Whether the entries lie in the string data as `string_bounds` says.
pub open spec fn laid_out(entries: Seq<ConstantEntry>, text: Seq<char>, literals: Seq<Literal>) -> bool {
    &&& text == joined_text(literals)
    &&& forall|i: int|
        0 <= i < entries.len() ==> (#[trigger] entries[i] matches ConstantEntry::Str { start, end }
            ==> (start as int, end as int) == string_bounds(literals, i))
}

/// Entries that are laid out stay so when a literal is added after them that is laid
/// out after theirs.
pub proof fn lemma_laid_out_pushed(
    entries: Seq<ConstantEntry>,
    text: Seq<char>,
    literals: Seq<Literal>,
    entry: ConstantEntry,
    literal: Literal,
)
    requires
        entries.len() == literals.len(),
        laid_out(entries, text, literals),
        literal is Str <==> entry is Str,
        entry matches ConstantEntry::Str { start, end } ==> start == encode_utf8(text).len() && end
            == encode_utf8(text + literal->Str_0).len(),
    ensures
        laid_out(
            entries.push(entry),
            text + (match literal {
                Literal::Str(added) => added,
                _ => Seq::empty(),
            }),
            literals.push(literal),
        ),
{
    let more = literals.push(literal);
    let grown = text + (match literal {
        Literal::Str(added) => added,
        _ => Seq::empty(),
    });
    assert(more.drop_last() =~= literals);
    assert(joined_text(more) == grown);
    assert(more.take(literals.len() as int) =~= literals);
    assert(more.take(literals.len() as int + 1) =~= more);
    assert forall|i: int| 0 <= i < entries.push(entry).len() implies (
    #[trigger] entries.push(entry)[i] matches ConstantEntry::Str { start, end } ==> (
        start as int,
        end as int,
    ) == string_bounds(more, i)) by {
        if i < entries.len() {
            assert(entries.push(entry)[i] == entries[i]);
            assert(more.take(i) =~= literals.take(i));
            assert(more.take(i + 1) =~= literals.take(i + 1));
        }
    }
}

/// The byte that tells the hash of a pool that a double follows.
pub const TAG_F64: u8 = 0;

/// The byte that tells the hash of a pool that an integer follows.
pub const TAG_I64: u8 = 1;

/// The byte that tells the hash of a pool that a string follows.
pub const TAG_STR: u8 = 2;

/// What adding a literal feeds to the hash of a pool: the byte that tells its kind,
/// then the eight bytes of a number, or the bytes of a string and the byte that
/// ends it.
pub open spec fn writes_of_literal(literal: Literal) -> Seq<Seq<u8>> {
    match literal {
        Literal::F64(bits) => seq![seq![TAG_F64], spec_u64_to_le_bytes(bits)],
        Literal::I64(n) => seq![seq![TAG_I64], spec_u64_to_le_bytes(n as u64)],
        Literal::Str(s) => seq![seq![TAG_STR], encode_utf8(s), seq![0xffu8]],
    }
}

/// What a sequence of literals feeds to the hash of a pool.
pub open spec fn writes_of(literals: Seq<Literal>) -> Seq<Seq<u8>>
    decreases literals.len(),
{
    if literals.len() == 0 {
        Seq::empty()
    } else {
        writes_of(literals.drop_last()) + writes_of_literal(literals.last())
    }
}

/// The hash of a pool with the given literals.
pub open spec fn digest(literals: Seq<Literal>) -> u64 {
    DefaultHasher::spec_finish(writes_of(literals))
}

/// Two literals that feed the same to the hash of a pool are the same literal: of
/// one kind, and the same number or text.
pub proof fn lemma_writes_tell_literals_apart(a: Literal, b: Literal)
    requires
        writes_of_literal(a) == writes_of_literal(b),
    ensures
        a == b,
{
    let wa = writes_of_literal(a);
    let wb = writes_of_literal(b);
    let tag_a: u8 = match a {
        Literal::F64(_) => TAG_F64,
        Literal::I64(_) => TAG_I64,
        Literal::Str(_) => TAG_STR,
    };
    let tag_b: u8 = match b {
        Literal::F64(_) => TAG_F64,
        Literal::I64(_) => TAG_I64,
        Literal::Str(_) => TAG_STR,
    };
    assert(wa[0] == seq![tag_a]);
    assert(wb[0] == seq![tag_b]);
    assert(seq![tag_a][0] == seq![tag_b][0]);
    assert(tag_a == tag_b);
    assert(wa[1] == wb[1]);
    vstd::bytes::lemma_auto_spec_u64_to_from_le_bytes();
    match (a, b) {
        (Literal::F64(x), Literal::F64(y)) => {
            assert(vstd::bytes::spec_u64_from_le_bytes(spec_u64_to_le_bytes(x)) == x);
            assert(vstd::bytes::spec_u64_from_le_bytes(spec_u64_to_le_bytes(y)) == y);
            assert(x == y);
        },
        (Literal::I64(x), Literal::I64(y)) => {
            assert(vstd::bytes::spec_u64_from_le_bytes(spec_u64_to_le_bytes(x as u64)) == x as u64);
            assert(vstd::bytes::spec_u64_from_le_bytes(spec_u64_to_le_bytes(y as u64)) == y as u64);
            assert(x as u64 == y as u64 ==> x == y) by (bit_vector);
            assert(x == y);
        },
        (Literal::Str(x), Literal::Str(y)) => {
            vstd::utf8::encode_utf8_decode_utf8(x);
            vstd::utf8::encode_utf8_decode_utf8(y);
            assert(x == y);
        },
        _ => {
            assert(tag_a != tag_b);
        },
    }
}

/// Two sequences of literals that feed the same to the hash of a pool are the same
/// sequence: what is fed tells where each literal ends, of which kind it is, and
/// which number or text it holds.
pub proof fn lemma_writes_tell_sequences_apart(a: Seq<Literal>, b: Seq<Literal>)
    requires
        writes_of(a) == writes_of(b),
    ensures
        a == b,
    decreases a.len(),
{
    vstd::bytes::lemma_auto_spec_u64_to_from_le_bytes();
    if a.len() == 0 || b.len() == 0 {
        if a.len() > 0 {
            assert(writes_of(a).len() >= writes_of_literal(a.last()).len());
        }
        if b.len() > 0 {
            assert(writes_of(b).len() >= writes_of_literal(b.last()).len());
        }
        assert(a =~= b);
    } else {
        let all = writes_of(a);
        let wa = writes_of_literal(a.last());
        let wb = writes_of_literal(b.last());
        let ra = writes_of(a.drop_last());
        let rb = writes_of(b.drop_last());
        assert(all == ra + wa);
        assert(all == rb + wb);
        assert(all[all.len() - 1] == wa[wa.len() - 1]);
        assert(all[all.len() - 1] == wb[wb.len() - 1]);
        assert(wa[wa.len() - 1].len() == wb[wb.len() - 1].len());
        assert(wa.len() == wb.len());
        assert forall|k: int| 0 <= k < wa.len() implies wa[k] == wb[k] by {
            assert(all[ra.len() + k] == wa[k]);
            assert(all[rb.len() + k] == wb[k]);
        }
        assert(wa =~= wb);
        assert forall|k: int| 0 <= k < ra.len() implies ra[k] == rb[k] by {
            assert(all[k] == ra[k]);
            assert(all[k] == rb[k]);
        }
        assert(ra =~= rb);
        lemma_writes_tell_literals_apart(a.last(), b.last());
        lemma_writes_tell_sequences_apart(a.drop_last(), b.drop_last());
        assert(a =~= a.drop_last().push(a.last()));
        assert(b =~= b.drop_last().push(b.last()));
    }
}

/// `position_of` finds the first place of a literal, and none only where the literal
/// is nowhere.
pub proof fn lemma_position_of(literals: Seq<Literal>, literal: Literal)
    ensures
        match position_of(literals, literal) {
            Some(i) => {
                &&& i < literals.len()
                &&& literals[i as int] == literal
                &&& forall|j: int| 0 <= j < i ==> literals[j] != literal
            },
            None => forall|j: int| 0 <= j < literals.len() ==> literals[j] != literal,
        },
    decreases literals.len(),
{
    if literals.len() > 0 {
        lemma_position_of(literals.drop_last(), literal);
        assert forall|j: int| 0 <= j < literals.len() - 1 implies literals[j]
            == literals.drop_last()[j] by {}
    }
}

/// The encoding of two joined texts is the joined encodings.
pub proof fn lemma_encode_joined(a: Seq<char>, b: Seq<char>)
    ensures
        encode_utf8(a + b) == encode_utf8(a) + encode_utf8(b),
    decreases a.len(),
{
    if a.len() == 0 {
        assert(a + b =~= b);
        assert(encode_utf8(a) + encode_utf8(b) =~= encode_utf8(b));
    } else {
        lemma_encode_joined(a.drop_first(), b);
        assert((a + b).drop_first() =~= a.drop_first() + b);
        assert(encode_utf8(a + b) =~= encode_utf8(a) + encode_utf8(b));
    }
}

/// A character boundary of valid bytes is one of the bytes with more valid bytes
/// after them.
pub proof fn lemma_boundary_survives(bytes: Seq<u8>, more: Seq<u8>, index: int)
    requires
        valid_utf8(bytes),
        valid_utf8(more),
        0 <= index <= bytes.len(),
        is_char_boundary(bytes, index),
    ensures
        is_char_boundary(bytes + more, index),
{
    let joined = bytes + more;
    vstd::utf8::valid_utf8_concat(bytes, more);
    if index == joined.len() {
        vstd::utf8::is_char_boundary_start_end_of_seq(joined);
    } else if index < bytes.len() {
        vstd::utf8::is_char_boundary_iff_not_is_continuation_byte(bytes, index);
        vstd::utf8::is_char_boundary_iff_not_is_continuation_byte(joined, index);
    } else {
        vstd::utf8::is_char_boundary_start_end_of_seq(more);
        vstd::utf8::is_char_boundary_iff_not_is_continuation_byte(more, 0);
        vstd::utf8::is_char_boundary_iff_not_is_continuation_byte(joined, index);
    }
}

/// Between two character boundaries of valid bytes lie valid bytes, and the first
/// boundary is one of the bytes up to the second.
pub proof fn lemma_between_boundaries(bytes: Seq<u8>, start: int, end: int)
    requires
        valid_utf8(bytes),
        0 <= start <= end <= bytes.len(),
        is_char_boundary(bytes, start),
        is_char_boundary(bytes, end),
    ensures
        valid_utf8(bytes.subrange(0, end)),
        is_char_boundary(bytes.subrange(0, end), start),
        valid_utf8(bytes.subrange(start, end)),
{
    let head = bytes.subrange(0, end);
    vstd::utf8::valid_utf8_split(bytes, end);
    if start == end {
        vstd::utf8::is_char_boundary_start_end_of_seq(head);
    } else {
        vstd::utf8::is_char_boundary_iff_not_is_continuation_byte(bytes, start);
        vstd::utf8::is_char_boundary_iff_not_is_continuation_byte(head, start);
    }
    vstd::utf8::valid_utf8_split(head, start);
    assert(head.subrange(start, head.len() as int) =~= bytes.subrange(start, end));
}

/// The part of a text between two character boundaries of its bytes.
fn slice_text(data: &str, start: usize, end: usize) -> (out: &str)
    requires
        start <= end <= data.spec_bytes().len(),
        is_char_boundary(data.spec_bytes(), start as int),
        is_char_boundary(data.spec_bytes(), end as int),
    ensures
        out@ == decode_utf8(data.spec_bytes().subrange(start as int, end as int)),
{
    let ghost bytes = data.spec_bytes();
    proof {
        vstd::utf8::encode_utf8_valid_utf8(data@);
        lemma_between_boundaries(bytes, start as int, end as int);
    }
    let (head, _) = data.split_at(end);
    let (_, out) = head.split_at(start);
    proof {
        assert(out.spec_bytes() =~= bytes.subrange(start as int, end as int));
        vstd::utf8::encode_utf8_decode_utf8(out@);
    }
    out
}

/// The constants of a script. A pool is made by a [`ConstantPoolBuilder`] and does
/// not change.
#[derive(Clone, Debug)]
pub struct ConstantPool {
    constants: Vec<ConstantEntry>,
    string_data: String,
    hash: u64,
}

impl View for ConstantPool {
    type V = Seq<Literal>;

    /// The literals of the pool, each at its index.
    closed spec fn view(&self) -> Seq<Literal> {
        literals_of(self.constants@, encode_utf8(self.string_data@))
    }
}

impl ConstantPool {
    /// The hash that stands for the pool where two pools are compared.
    pub closed spec fn hash_value(&self) -> u64 {
        self.hash
    }

    /// The string data: the strings of the pool, one after the other.
    pub closed spec fn text(&self) -> Seq<char> {
        self.string_data@
    }

    /// The range that the constant at `index` takes up in the bytes of the string
    /// data, where it is a string.
    pub closed spec fn bounds(&self, index: int) -> (int, int) {
        match self.constants@[index] {
            ConstantEntry::Str { start, end } => (start as int, end as int),
            _ => (0, 0),
        }
    }

    /// Every string lies in the string data, the strings lie there end to end in the
    /// order of their indices, no literal occurs twice, and every constant has an
    /// index.
    pub closed spec fn well_formed(&self) -> bool {
        &&& forall|i: int|
            0 <= i < self.constants@.len() ==> entry_in_bounds(
                #[trigger] self.constants@[i],
                encode_utf8(self.string_data@),
            )
        &&& laid_out(self.constants@, self.string_data@, self@)
        &&& self@.no_duplicates()
        &&& self.constants@.len() <= MAX_CONSTANT_INDEX + 1
    }

    /// What `well_formed` says of the literals and of the strings among them.
    pub proof fn lemma_well_formed(&self)
        requires
            self.well_formed(),
        ensures
            self@.no_duplicates(),
            self@.len() <= MAX_CONSTANT_INDEX + 1,
            self.text() == joined_text(self@),
            forall|i: int|
                0 <= i < self@.len() && self@[i] is Str ==> {
                    &&& (#[trigger] self.bounds(i)) == string_bounds(self@, i)
                    &&& 0 <= self.bounds(i).0 <= self.bounds(i).1 <= encode_utf8(
                        self.text(),
                    ).len()
                    &&& self@[i] == Literal::Str(
                        decode_utf8(
                            encode_utf8(self.text()).subrange(self.bounds(i).0, self.bounds(i).1),
                        ),
                    )
                },
    {
        assert forall|i: int| 0 <= i < self@.len() && self@[i] is Str implies {
            &&& (#[trigger] self.bounds(i)) == string_bounds(self@, i)
            &&& 0 <= self.bounds(i).0 <= self.bounds(i).1 <= encode_utf8(
                self.text(),
            ).len()
            &&& self@[i] == Literal::Str(
                decode_utf8(encode_utf8(self.text()).subrange(self.bounds(i).0, self.bounds(i).1)),
            )
        } by {
            assert(entry_in_bounds(self.constants@[i], encode_utf8(self.string_data@)));
        }
    }

    /// The number of constants in the pool.
    pub fn size(&self) -> (n: usize)
        ensures
            n == self@.len(),
    {
        self.constants.len()
    }

    /// The constant at `index`, if the pool has one there.
    pub fn get(&self, index: usize) -> (out: Option<Constant<'_>>)
        requires
            self.well_formed(),
        ensures
            index < self@.len() ==> out is Some && out->Some_0.literal() == self@[index as int],
            index >= self@.len() ==> out is None,
    {
        if index < self.constants.len() {
            assert(entry_in_bounds(self.constants@[index as int], encode_utf8(self.string_data@)));
            match self.constants[index] {
                ConstantEntry::F64(bits) => Some(Constant::F64(bits)),
                ConstantEntry::I64(n) => Some(Constant::I64(n)),
                ConstantEntry::Str { start, end } => Some(
                    Constant::Str(slice_text(self.string_data.as_str(), start, end)),
                ),
            }
        } else {
            None
        }
    }

    /// The string data: the strings of the pool, one after the other.
    pub fn string_data(&self) -> (out: &str)
        ensures
            out@ == self.text(),
    {
        self.string_data.as_str()
    }

    /// The range that the string at `index` takes up in the bytes of the string data.
    pub fn get_str_bounds(&self, index: ConstantIndex) -> (out: core::ops::Range<usize>)
        requires
            self.well_formed(),
            index.position() < self@.len(),
            self@[index.position() as int] is Str,
        ensures
            (out.start as int, out.end as int) == self.bounds(index.position() as int),
    {
        match self.constants[index.to_usize()] {
            ConstantEntry::Str { start, end } => start..end,
            _ => 0..0,
        }
    }

    /// The string at `index`.
    pub fn get_str(&self, index: ConstantIndex) -> (out: &str)
        requires
            self.well_formed(),
            index.position() < self@.len(),
            self@[index.position() as int] is Str,
        ensures
            self@[index.position() as int] == Literal::Str(out@),
    {
        assert(entry_in_bounds(
            self.constants@[index.position() as int],
            encode_utf8(self.string_data@),
        ));
        let bounds = self.get_str_bounds(index);
        slice_text(self.string_data.as_str(), bounds.start, bounds.end)
    }

    /// The bits of the double at `index`.
    pub fn get_f64(&self, index: ConstantIndex) -> (out: u64)
        requires
            index.position() < self@.len(),
            self@[index.position() as int] is F64,
        ensures
            self@[index.position() as int] == Literal::F64(out),
    {
        match self.constants[index.to_usize()] {
            ConstantEntry::F64(bits) => bits,
            _ => 0,
        }
    }

    /// The integer at `index`.
    pub fn get_i64(&self, index: ConstantIndex) -> (out: i64)
        requires
            index.position() < self@.len(),
            self@[index.position() as int] is I64,
        ensures
            self@[index.position() as int] == Literal::I64(out),
    {
        match self.constants[index.to_usize()] {
            ConstantEntry::I64(n) => n,
            _ => 0,
        }
    }
}

impl Default for ConstantPool {
    /// The pool without constants. Its hash is zero.
    fn default() -> (out: Self)
        ensures
            out@ == Seq::<Literal>::empty(),
            out.well_formed(),
            out.hash_value() == 0,
    {
        let out = ConstantPool { constants: Vec::new(), string_data: String::new(), hash: 0 };
        assert(out@ =~= Seq::<Literal>::empty());
        out
    }
}

impl PartialEq for ConstantPool {
    /// Pools are compared by their hashes, not by what they hold.
    fn eq(&self, other: &Self) -> (equal: bool) {
        self.hash == other.hash
    }
}

impl vstd::std_specs::cmp::PartialEqSpecImpl for ConstantPool {
    open spec fn obeys_eq_spec() -> bool {
        true
    }

    open spec fn eq_spec(&self, other: &Self) -> bool {
        self.hash_value() == other.hash_value()
    }
}

impl std::hash::Hash for ConstantPool {
    /// `u64::hash`: a pool is hashed by the hash that stands for it.
    #[verifier::external_body]
    fn hash<H: Hasher>(&self, state: &mut H) {
        self.hash.hash(state)
    }
}

/// Goes through the constants of a pool in the order of their indices.
pub struct ConstantPoolIterator<'a> {
    pool: &'a ConstantPool,
    index: usize,
}

impl<'a> ConstantPoolIterator<'a> {
    /// The pool that is gone through.
    pub closed spec fn pool(&self) -> ConstantPool {
        *self.pool
    }

    /// The index of the constant that comes next.
    pub closed spec fn index(&self) -> nat {
        self.index as nat
    }

    /// The next constant, or nothing once the pool has been gone through.
    pub fn next(&mut self) -> (out: Option<Constant<'a>>)
        requires
            old(self).pool().well_formed(),
        ensures
            final(self).pool() == old(self).pool(),
            old(self).index() < old(self).pool()@.len() ==> {
                &&& out is Some
                &&& out->Some_0.literal() == old(self).pool()@[old(self).index() as int]
                &&& final(self).index() == old(self).index() + 1
            },
            old(self).index() >= old(self).pool()@.len() ==> out is None && final(self).index()
                == old(self).index(),
    {
        let out = self.pool.get(self.index);
        if self.index < self.pool.size() {
            self.index += 1;
        }
        out
    }
}

impl ConstantPool {
    /// An iterator over the constants of the pool, from the first on.
    pub fn iter(&self) -> (out: ConstantPoolIterator<'_>)
        ensures
            out.pool() == *self,
            out.index() == 0,
    {
        ConstantPoolIterator { pool: self, index: 0 }
    }
}

/// Entries that lie in some bytes lie in the same bytes with more valid bytes after
/// them, and stand for the same literals there.
proof fn lemma_entries_survive(entries: Seq<ConstantEntry>, bytes: Seq<u8>, more: Seq<u8>)
    requires
        valid_utf8(bytes),
        valid_utf8(more),
        forall|i: int| 0 <= i < entries.len() ==> entry_in_bounds(#[trigger] entries[i], bytes),
    ensures
        forall|i: int|
            0 <= i < entries.len() ==> entry_in_bounds(#[trigger] entries[i], bytes + more),
        literals_of(entries, bytes + more) == literals_of(entries, bytes),
{
    let joined = bytes + more;
    assert forall|i: int| 0 <= i < entries.len() implies entry_in_bounds(
        #[trigger] entries[i],
        joined,
    ) && literal_of(entries[i], joined) == literal_of(entries[i], bytes) by {
        assert(entry_in_bounds(entries[i], bytes));
        match entries[i] {
            ConstantEntry::Str { start, end } => {
                lemma_boundary_survives(bytes, more, start as int);
                lemma_boundary_survives(bytes, more, end as int);
                assert(joined.subrange(start as int, end as int) =~= bytes.subrange(
                    start as int,
                    end as int,
                ));
            },
            _ => {},
        }
    }
    assert(literals_of(entries, joined) =~= literals_of(entries, bytes));
}

/// One more literal feeds its writes after those of the others.
proof fn lemma_writes_pushed(literals: Seq<Literal>, literal: Literal)
    ensures
        writes_of(literals.push(literal)) == writes_of(literals) + writes_of_literal(literal),
{
    assert(literals.push(literal).drop_last() =~= literals);
}

/// A literal that is nowhere among others can be added without any occurring twice.
proof fn lemma_pushed_no_duplicates(literals: Seq<Literal>, literal: Literal)
    requires
        literals.no_duplicates(),
        position_of(literals, literal) is None,
    ensures
        literals.push(literal).no_duplicates(),
{
    lemma_position_of(literals, literal);
}

/// Where no literal occurs twice, a literal is found at the one place where it is.
proof fn lemma_position_found(literals: Seq<Literal>, literal: Literal, at: int)
    requires
        literals.no_duplicates(),
        0 <= at < literals.len(),
        literals[at] == literal,
    ensures
        position_of(literals, literal) == Some(at as nat),
{
    lemma_position_of(literals, literal);
}

/// Whether the bytes `data[start..end]` are the bytes `text`.
fn bytes_match(data: &[u8], start: usize, end: usize, text: &[u8]) -> (same: bool)
    requires
        start <= end <= data@.len(),
    ensures
        same == (data@.subrange(start as int, end as int) == text@),
{
    if end - start != text.len() {
        return false;
    }
    let mut i: usize = 0;
    while i < text.len()
        invariant
            start <= end <= data@.len(),
            end - start == text@.len(),
            i <= text.len(),
            forall|k: int| 0 <= k < i ==> data@[start + k] == text@[k],
        decreases text.len() - i,
    {
        if data[start + i] != text[i] {
            assert(data@.subrange(start as int, end as int)[i as int] != text@[i as int]);
            return false;
        }
        i += 1;
    }
    assert(data@.subrange(start as int, end as int) =~= text@);
    true
}

/// The key under which the table of strings keeps the indices of a text: the hash
/// of its bytes.
pub open spec fn key_of(text: Seq<char>) -> u64 {
    DefaultHasher::spec_finish(seq![encode_utf8(text)])
}

/// Whether the table of strings lists the index `at` under `key`.
pub open spec fn listed(table: Map<u64, Vec<ConstantIndex>>, key: u64, at: int) -> bool {
    table.contains_key(key) && exists|k: int|
        0 <= k < table[key]@.len() && (#[trigger] table[key]@[k]).position() == at
}

/// The key under which the table of strings keeps the indices of a text.
fn text_key(s: &str) -> (key: u64)
    ensures
        key == key_of(s@),
{
    let mut hasher = DefaultHasher::new();
    hasher.write(s.as_bytes());
    assert(hasher@ =~= seq![encode_utf8(s@)]);
    hasher.finish()
}

/// Gathers the constants of a script while it is parsed, and makes the pool of them.
pub struct ConstantPoolBuilder {
    constants: Vec<ConstantEntry>,
    string_data: String,
    hasher: DefaultHasher,
    string_map: HashMap<u64, Vec<ConstantIndex>>,
    float_map: HashMap<u64, ConstantIndex>,
    int_map: HashMap<i64, ConstantIndex>,
}

impl View for ConstantPoolBuilder {
    type V = Seq<Literal>;

    /// The literals added so far, each at its index.
    closed spec fn view(&self) -> Seq<Literal> {
        literals_of(self.constants@, encode_utf8(self.string_data@))
    }
}

impl ConstantPoolBuilder {
    /// The string data: the strings added so far, one after the other.
    pub closed spec fn text(&self) -> Seq<char> {
        self.string_data@
    }

    /// The range that the constant at `index` takes up in the bytes of the string
    /// data, where it is a string.
    pub closed spec fn bounds(&self, index: int) -> (int, int) {
        match self.constants@[index] {
            ConstantEntry::Str { start, end } => (start as int, end as int),
            _ => (0, 0),
        }
    }

    /// Every string lies in the string data, no literal occurs twice, every constant
    /// has an index, the table of strings lists each string under the key of its text,
    /// and the tables of doubles and integers know each of them by its index and
    /// nothing else.
    pub closed spec fn well_formed(&self) -> bool {
        &&& forall|i: int|
            0 <= i < self.constants@.len() ==> entry_in_bounds(
                #[trigger] self.constants@[i],
                encode_utf8(self.string_data@),
            )
        &&& laid_out(self.constants@, self.string_data@, self@)
        &&& self@.no_duplicates()
        &&& self.constants@.len() <= MAX_CONSTANT_INDEX + 1
        &&& self.hasher@ == writes_of(self@)
        &&& forall|i: int|
            0 <= i < self@.len() ==> (#[trigger] self@[i] matches Literal::Str(text) ==> listed(
                self.string_map@,
                key_of(text),
                i,
            ))
        &&& forall|bits: u64| #[trigger]
            self.float_map@.contains_key(bits) ==> {
                &&& self.float_map@[bits].position() < self.constants@.len()
                &&& self.constants@[self.float_map@[bits].position() as int] == ConstantEntry::F64(
                    bits,
                )
            }
        &&& forall|i: int|
            0 <= i < self.constants@.len() ==> (#[trigger] self.constants@[i] matches ConstantEntry::F64(
                bits,
            ) ==> self.float_map@.contains_key(bits))
        &&& forall|n: i64| #[trigger]
            self.int_map@.contains_key(n) ==> {
                &&& self.int_map@[n].position() < self.constants@.len()
                &&& self.constants@[self.int_map@[n].position() as int] == ConstantEntry::I64(n)
            }
        &&& forall|i: int|
            0 <= i < self.constants@.len() ==> (#[trigger] self.constants@[i] matches ConstantEntry::I64(
                n,
            ) ==> self.int_map@.contains_key(n))
    }

    /// What `well_formed` says of the literals and of the strings among them.
    pub proof fn lemma_well_formed(&self)
        requires
            self.well_formed(),
        ensures
            self@.no_duplicates(),
            self@.len() <= MAX_CONSTANT_INDEX + 1,
            self.text() == joined_text(self@),
            forall|i: int|
                0 <= i < self@.len() && self@[i] is Str ==> {
                    &&& (#[trigger] self.bounds(i)) == string_bounds(self@, i)
                    &&& 0 <= self.bounds(i).0 <= self.bounds(i).1 <= encode_utf8(
                        self.text(),
                    ).len()
                    &&& self@[i] == Literal::Str(
                        decode_utf8(
                            encode_utf8(self.text()).subrange(self.bounds(i).0, self.bounds(i).1),
                        ),
                    )
                },
    {
        assert forall|i: int| 0 <= i < self@.len() && self@[i] is Str implies {
            &&& (#[trigger] self.bounds(i)) == string_bounds(self@, i)
            &&& 0 <= self.bounds(i).0 <= self.bounds(i).1 <= encode_utf8(
                self.text(),
            ).len()
            &&& self@[i] == Literal::Str(
                decode_utf8(encode_utf8(self.text()).subrange(self.bounds(i).0, self.bounds(i).1)),
            )
        } by {
            assert(entry_in_bounds(self.constants@[i], encode_utf8(self.string_data@)));
        }
    }

    /// A builder to which nothing has been added.
    pub fn new() -> (out: Self)
        ensures
            out@ == Seq::<Literal>::empty(),
            out.text() == Seq::<char>::empty(),
            out.well_formed(),
    {
        let out = ConstantPoolBuilder {
            constants: Vec::new(),
            string_data: String::new(),
            hasher: DefaultHasher::new(),
            string_map: HashMap::new(),
            float_map: HashMap::new(),
            int_map: HashMap::new(),
        };
        assert(out@ =~= Seq::<Literal>::empty());
        out
    }

    /// The number of constants added so far.
    pub fn size(&self) -> (n: usize)
        ensures
            n == self@.len(),
    {
        self.constants.len()
    }

    /// Adds an integer and gives its index. An integer that was added before keeps
    /// the index it got then. The error comes when the integer is new and every
    /// index is taken.
    pub fn add_i64(&mut self, n: i64) -> (out: Result<
        ConstantIndex,
        ConstantIndexTryFromOutOfRange,
    >)
        requires
            old(self).well_formed(),
        ensures
            final(self).well_formed(),
            final(self)@ == after_adding(old(self)@, Literal::I64(n)),
            match granted_index(old(self)@, Literal::I64(n)) {
                Some(i) => out is Ok && out->Ok_0.position() == i,
                None => out is Err,
            },
            final(self).text() == old(self).text(),
            forall|i: int| 0 <= i < old(self)@.len() ==> final(self).bounds(i) == old(self).bounds(i),
            final(self)@ == old(self)@ ==> *final(self) == *old(self),
    {
        broadcast use vstd::std_specs::hash::group_hash_axioms;

        let ghost literals = self@;
        let ghost bytes = encode_utf8(self.string_data@);
        match self.int_map.get(&n) {
            Some(index) => {
                proof {
                    lemma_position_found(literals, Literal::I64(n), index.position() as int);
                }
                Ok(*index)
            },
            None => {
                proof {
                    lemma_position_of(literals, Literal::I64(n));
                    if position_of(literals, Literal::I64(n)) is Some {
                        let at = position_of(literals, Literal::I64(n))->Some_0 as int;
                        assert(self.constants@[at] == ConstantEntry::I64(n));
                    }
                }
                match ConstantIndex::from_usize(self.constants.len()) {
                    Err(e) => Err(e),
                    Ok(index) => {
                        self.constants.push(ConstantEntry::I64(n));
                        let tag: Vec<u8> = vec![TAG_I64];
                        self.hasher.write(tag.as_slice());
                        let written = u64_to_le_bytes(n as u64);
                        self.hasher.write(written.as_slice());
                        self.int_map.insert(n, index);
                        proof {
                            assert(self@ =~= literals.push(Literal::I64(n)));
                            lemma_laid_out_pushed(
                                old(self).constants@,
                                self.string_data@,
                                literals,
                                ConstantEntry::I64(n),
                                Literal::I64(n),
                            );
                            assert(self.string_data@ + Seq::<char>::empty() =~= self.string_data@);
                            assert(tag@ =~= seq![TAG_I64]);
                            lemma_writes_pushed(literals, Literal::I64(n));
                            lemma_pushed_no_duplicates(literals, Literal::I64(n));
                            assert(self.hasher@ =~= writes_of(self@));
                        }
                        Ok(index)
                    },
                }
            },
        }
    }

    /// Adds a double, given by its bits, and gives its index. Doubles are told apart
    /// by their bits. A double that was added before keeps the index it got then.
    /// The error comes when the double is new and every index is taken.
    pub fn add_f64(&mut self, bits: u64) -> (out: Result<
        ConstantIndex,
        ConstantIndexTryFromOutOfRange,
    >)
        requires
            old(self).well_formed(),
        ensures
            final(self).well_formed(),
            final(self)@ == after_adding(old(self)@, Literal::F64(bits)),
            match granted_index(old(self)@, Literal::F64(bits)) {
                Some(i) => out is Ok && out->Ok_0.position() == i,
                None => out is Err,
            },
            final(self).text() == old(self).text(),
            forall|i: int| 0 <= i < old(self)@.len() ==> final(self).bounds(i) == old(self).bounds(i),
            final(self)@ == old(self)@ ==> *final(self) == *old(self),
    {
        broadcast use vstd::std_specs::hash::group_hash_axioms;

        let ghost literals = self@;
        match self.float_map.get(&bits) {
            Some(index) => {
                proof {
                    lemma_position_found(literals, Literal::F64(bits), index.position() as int);
                }
                Ok(*index)
            },
            None => {
                proof {
                    lemma_position_of(literals, Literal::F64(bits));
                    if position_of(literals, Literal::F64(bits)) is Some {
                        let at = position_of(literals, Literal::F64(bits))->Some_0 as int;
                        assert(self.constants@[at] == ConstantEntry::F64(bits));
                    }
                }
                match ConstantIndex::from_usize(self.constants.len()) {
                    Err(e) => Err(e),
                    Ok(index) => {
                        self.constants.push(ConstantEntry::F64(bits));
                        let tag: Vec<u8> = vec![TAG_F64];
                        self.hasher.write(tag.as_slice());
                        let written = u64_to_le_bytes(bits);
                        self.hasher.write(written.as_slice());
                        self.float_map.insert(bits, index);
                        proof {
                            assert(self@ =~= literals.push(Literal::F64(bits)));
                            lemma_laid_out_pushed(
                                old(self).constants@,
                                self.string_data@,
                                literals,
                                ConstantEntry::F64(bits),
                                Literal::F64(bits),
                            );
                            assert(self.string_data@ + Seq::<char>::empty() =~= self.string_data@);
                            assert(tag@ =~= seq![TAG_F64]);
                            lemma_writes_pushed(literals, Literal::F64(bits));
                            lemma_pushed_no_duplicates(literals, Literal::F64(bits));
                            assert(self.hasher@ =~= writes_of(self@));
                        }
                        Ok(index)
                    },
                }
            },
        }
    }

    /// The index of a string among the constants, if it is there.
    fn find_string(&self, s: &str, key: u64) -> (out: Option<ConstantIndex>)
        requires
            self.well_formed(),
            key == key_of(s@),
        ensures
            out matches Some(index) ==> position_of(self@, Literal::Str(s@)) == Some(
                index.position(),
            ),
            out is None ==> position_of(self@, Literal::Str(s@)) is None,
    {
        broadcast use vstd::std_specs::hash::group_hash_axioms;

        let ghost bytes = encode_utf8(self.string_data@);
        let ghost literal = Literal::Str(s@);
        let data = self.string_data.as_str().as_bytes();
        let text = s.as_bytes();
        proof {
            vstd::utf8::encode_utf8_valid_utf8(self.string_data@);
            vstd::utf8::encode_utf8_decode_utf8(s@);
            lemma_position_of(self@, literal);
        }
        match self.string_map.get(&key) {
            None => {
                proof {
                    if position_of(self@, literal) is Some {
                        let at = position_of(self@, literal)->Some_0 as int;
                        assert(listed(self.string_map@, key_of(s@), at));
                    }
                }
                None
            },
            Some(bucket) => {
                let mut k: usize = 0;
                while k < bucket.len()
                    invariant
                        self.well_formed(),
                        k <= bucket.len(),
                        bytes == encode_utf8(self.string_data@),
                        valid_utf8(bytes),
                        data@ == bytes,
                        text@ == encode_utf8(s@),
                        decode_utf8(encode_utf8(s@)) == s@,
                        literal == Literal::Str(s@),
                        forall|j: int|
                            0 <= j < k ==> !((#[trigger] bucket@[j]).position() < self@.len()
                                && self@[bucket@[j].position() as int] == literal),
                    decreases bucket.len() - k,
                {
                    let at = bucket[k].to_usize();
                    if at < self.constants.len() {
                        assert(entry_in_bounds(self.constants@[at as int], bytes));
                        match self.constants[at] {
                            ConstantEntry::Str { start, end } => {
                                let ghost part = bytes.subrange(start as int, end as int);
                                proof {
                                    lemma_between_boundaries(bytes, start as int, end as int);
                                    vstd::utf8::decode_utf8_encode_utf8(part);
                                }
                                if bytes_match(data, start, end, text) {
                                    proof {
                                        lemma_position_found(self@, literal, at as int);
                                    }
                                    return Some(bucket[k]);
                                }
                            },
                            _ => {},
                        }
                    }
                    k += 1;
                }
                proof {
                    if position_of(self@, literal) is Some {
                        let at = position_of(self@, literal)->Some_0 as int;
                        assert(listed(self.string_map@, key_of(s@), at));
                        let j = choose|j: int|
                            0 <= j < bucket@.len() && (#[trigger] bucket@[j]).position() == at;
                        assert(!(bucket@[j].position() < self@.len() && self@[bucket@[j].position() as int]
                            == literal));
                    }
                }
                None
            },
        }
    }

    /// Adds a string and gives its index. A string that was added before keeps the
    /// index it got then, and the string data does not grow. The error comes when the
    /// string is new and every index is taken.
    pub fn add_string(&mut self, s: &str) -> (out: Result<
        ConstantIndex,
        ConstantIndexTryFromOutOfRange,
    >)
        requires
            old(self).well_formed(),
        ensures
            final(self).well_formed(),
            final(self)@ == after_adding(old(self)@, Literal::Str(s@)),
            match granted_index(old(self)@, Literal::Str(s@)) {
                Some(i) => out is Ok && out->Ok_0.position() == i,
                None => out is Err,
            },
            forall|i: int| 0 <= i < old(self)@.len() ==> final(self).bounds(i) == old(self).bounds(i),
            final(self)@ == old(self)@ ==> *final(self) == *old(self),
            final(self)@ != old(self)@ ==> {
                &&& final(self).text() == old(self).text() + s@
                &&& final(self).bounds(old(self)@.len() as int) == (
                    encode_utf8(old(self).text()).len() as int,
                    encode_utf8(final(self).text()).len() as int,
                )
            },
    {
        broadcast use vstd::std_specs::hash::group_hash_axioms;

        let ghost literals = self@;
        let ghost entries = self.constants@;
        let ghost bytes = encode_utf8(self.string_data@);
        let ghost more = encode_utf8(s@);
        let ghost table = self.string_map@;
        let key = text_key(s);
        match self.find_string(s, key) {
            Some(index) => Ok(index),
            None => match ConstantIndex::from_usize(self.constants.len()) {
                Err(e) => Err(e),
                Ok(index) => {
                    let start = self.string_data.as_str().as_bytes().len();
                    self.string_data.append(s);
                    let end = self.string_data.as_str().as_bytes().len();
                    let entry = ConstantEntry::Str { start, end };
                    self.constants.push(entry);
                    let tag: Vec<u8> = vec![TAG_STR];
                    self.hasher.write(tag.as_slice());
                    self.hasher.write(s.as_bytes());
                    let mark: Vec<u8> = vec![0xffu8];
                    self.hasher.write(mark.as_slice());
                    let mut bucket = match self.string_map.remove(&key) {
                        Some(bucket) => bucket,
                        None => Vec::new(),
                    };
                    let ghost before = bucket@;
                    bucket.push(index);
                    let ghost after = bucket@;
                    self.string_map.insert(key, bucket);
                    proof {
                        let joined = encode_utf8(self.string_data@);
                        vstd::utf8::encode_utf8_valid_utf8(old(self).string_data@);
                        vstd::utf8::encode_utf8_valid_utf8(s@);
                        vstd::utf8::encode_utf8_valid_utf8(self.string_data@);
                        vstd::utf8::encode_utf8_decode_utf8(s@);
                        lemma_encode_joined(old(self).string_data@, s@);
                        assert(joined == bytes + more);
                        lemma_entries_survive(entries, bytes, more);
                        vstd::utf8::is_char_boundary_start_end_of_seq(bytes);
                        lemma_boundary_survives(bytes, more, start as int);
                        vstd::utf8::is_char_boundary_start_end_of_seq(joined);
                        assert(joined.subrange(start as int, end as int) =~= more);
                        assert(entry_in_bounds(entry, joined));
                        assert(literal_of(entry, joined) == Literal::Str(s@));
                        assert(self@ =~= literals.push(Literal::Str(s@)));
                        lemma_laid_out_pushed(
                            entries,
                            old(self).string_data@,
                            literals,
                            entry,
                            Literal::Str(s@),
                        );
                        lemma_writes_pushed(literals, Literal::Str(s@));
                        lemma_pushed_no_duplicates(literals, Literal::Str(s@));
                        assert(tag@ =~= seq![TAG_STR]);
                        assert(mark@ =~= seq![0xffu8]);
                        assert(self.hasher@ =~= writes_of(self@));
                        assert forall|i: int| 0 <= i < self@.len() implies (
                        #[trigger] self@[i] matches Literal::Str(text) ==> listed(
                            self.string_map@,
                            key_of(text),
                            i,
                        )) by {
                            if let Literal::Str(text) = self@[i] {
                                let now = self.string_map@;
                                assert(now.contains_key(key));
                                assert(now[key]@ == after);
                                if i < literals.len() {
                                    assert(literals[i] == self@[i]);
                                    assert(listed(table, key_of(text), i));
                                    let j = choose|j: int|
                                        0 <= j < table[key_of(text)]@.len() && (
                                        #[trigger] table[key_of(text)]@[j]).position() == i;
                                    if key_of(text) == key {
                                        assert(before == table[key]@);
                                        assert(after[j] == before[j]);
                                        assert(now[key]@[j].position() == i);
                                    } else {
                                        assert(now.contains_key(key_of(text)));
                                        assert(now[key_of(text)] == table[key_of(text)]);
                                        assert(now[key_of(text)]@[j].position() == i);
                                    }
                                } else {
                                    assert(text == s@);
                                    assert(after[after.len() - 1] == index);
                                    assert(now[key]@[after.len() - 1].position() == i);
                                }
                            }
                        }
                    }
                    Ok(index)
                },
            },
        }
    }

    /// The string at `index`.
    pub fn get_str(&self, index: ConstantIndex) -> (out: &str)
        requires
            self.well_formed(),
            index.position() < self@.len(),
            self@[index.position() as int] is Str,
        ensures
            self@[index.position() as int] == Literal::Str(out@),
    {
        assert(entry_in_bounds(
            self.constants@[index.position() as int],
            encode_utf8(self.string_data@),
        ));
        match self.constants[index.to_usize()] {
            ConstantEntry::Str { start, end } => slice_text(self.string_data.as_str(), start, end),
            _ => "",
        }
    }

    /// The pool of the constants added, each under the index it was given.
    pub fn build(self) -> (out: ConstantPool)
        requires
            self.well_formed(),
        ensures
            out.well_formed(),
            out@ == self@,
            out.hash_value() == digest(self@),
            out.text() == self.text(),
            forall|i: int| 0 <= i < self@.len() ==> out.bounds(i) == self.bounds(i),
    {
        ConstantPool {
            constants: self.constants,
            string_data: self.string_data,
            hash: self.hasher.finish(),
        }
    }
}

impl Default for ConstantPoolBuilder {
    /// A builder to which nothing has been added.
    fn default() -> (out: Self)
        ensures
            out@ == Seq::<Literal>::empty(),
            out.well_formed(),
    {
        ConstantPoolBuilder::new()
    }
}

/// The literals of a builder to which the given literals were added one by one.
pub open spec fn collected(inputs: Seq<Literal>) -> Seq<Literal>
    decreases inputs.len(),
{
    if inputs.len() == 0 {
        Seq::empty()
    } else {
        after_adding(collected(inputs.drop_last()), inputs.last())
    }
}

/// A literal that is added twice gets the same index both times, and the second
/// addition changes nothing.
pub proof fn lemma_added_twice(literals: Seq<Literal>, literal: Literal)
    ensures
        granted_index(after_adding(literals, literal), literal) == granted_index(literals, literal),
        after_adding(after_adding(literals, literal), literal) == after_adding(literals, literal),
{
    lemma_position_of(literals, literal);
    lemma_position_of(literals.push(literal), literal);
}

/// Indices are dense and stay: adding a literal leaves every constant at its index,
/// and a new literal gets the first index that is free.
pub proof fn lemma_indices_stay(literals: Seq<Literal>, literal: Literal)
    ensures
        literals.len() <= after_adding(literals, literal).len() <= literals.len() + 1,
        forall|i: int| 0 <= i < literals.len() ==> after_adding(literals, literal)[i] == literals[i],
        position_of(literals, literal) is None ==> granted_index(literals, literal) is Some
            ==> granted_index(literals, literal) == Some(literals.len()),
        granted_index(literals, literal) matches Some(i) ==> i < after_adding(
            literals,
            literal,
        ).len() && after_adding(literals, literal)[i as int] == literal,
{
    lemma_position_of(literals, literal);
}

/// A pool holds each distinct literal once: the number of its constants is the
/// number of distinct literals that were added, as long as each of them got an index.
pub proof fn lemma_size_counts_distinct(inputs: Seq<Literal>)
    requires
        inputs.to_set().len() <= MAX_CONSTANT_INDEX + 1,
    ensures
        collected(inputs).no_duplicates(),
        collected(inputs).to_set() == inputs.to_set(),
        collected(inputs).len() == inputs.to_set().len(),
    decreases inputs.len(),
{
    broadcast use {vstd::set::group_set_axioms, vstd::seq_lib::seq_to_set_is_finite};

    if inputs.len() == 0 {
        assert(inputs.to_set() =~= Set::<Literal>::empty());
        assert(collected(inputs).to_set() =~= Set::<Literal>::empty());
    } else {
        let prefix = inputs.drop_last();
        let last = inputs.last();
        assert(prefix.to_set().insert(last) =~= inputs.to_set()) by {
            assert forall|x: Literal| inputs.to_set().contains(x) implies prefix.to_set().insert(
                last,
            ).contains(x) by {
                let k = choose|k: int| 0 <= k < inputs.len() && inputs[k] == x;
                if k < inputs.len() - 1 {
                    assert(prefix[k] == x);
                }
            }
            assert forall|x: Literal| prefix.to_set().insert(last).contains(
                x,
            ) implies inputs.to_set().contains(x) by {
                if x != last {
                    let k = choose|k: int| 0 <= k < prefix.len() && prefix[k] == x;
                    assert(inputs[k] == x);
                } else {
                    assert(inputs[inputs.len() - 1] == x);
                }
            }
        }
        vstd::set_lib::lemma_len_subset(prefix.to_set(), inputs.to_set());
        lemma_size_counts_distinct(prefix);
        let before = collected(prefix);
        lemma_position_of(before, last);
        if position_of(before, last) is Some {
            let at = position_of(before, last)->Some_0 as int;
            assert(before.to_set().contains(before[at]));
            assert(inputs.to_set() =~= prefix.to_set());
        } else {
            assert(!before.to_set().contains(last)) by {
                if before.to_set().contains(last) {
                    let k = choose|k: int| 0 <= k < before.len() && before[k] == last;
                    assert(false);
                }
            }
            before.lemma_push_to_set_commute(last);
            lemma_pushed_no_duplicates(before, last);
        }
    }
}

/// Pools built from the same literals in the same order are equal.
pub proof fn lemma_same_literals_same_pool(a: ConstantPool, b: ConstantPool)
    requires
        a.hash_value() == digest(a@),
        b.hash_value() == digest(b@),
        a@ == b@,
    ensures
        a.eq_spec(&b),
{
}

} // verus!
