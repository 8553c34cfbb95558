//! Interned strings: a table that gives each distinct string a small integer
//! identity, and gives the string back for it.

use bumpalo::Bump;
use std::collections::hash_map::DefaultHasher;
use std::collections::HashMap;
use std::hash::Hasher;
use vstd::prelude::*;
use vstd::std_specs::hash::DefaultHasherAdditionalSpecFns;

verus! {

/// The arena type of `bumpalo`. Nothing is known of what is inside one.
#[verifier::external_type_specification]
#[verifier::external_body]
pub struct ExBump<const MIN_ALIGN: usize>(bumpalo::Bump<MIN_ALIGN>);

/// What `Bump::allocation_limit` returns of an arena: the limit on the bytes
/// that it may take from the allocator, if one was set on it. This library
/// sets none and hands no `Bump` out, so an arena keeps the limit that it was
/// made with.
pub uninterp spec fn bump_limit(bump: Bump) -> Option<usize>;

/// The storage of interned strings: it owns the bytes of every string of the
/// tables that borrow it, and frees them only all at once. No limit is ever
/// set on what it may hold.
pub struct Arena {
    bump: Bump,
}

/// Calls `Bump::new`, which makes an empty arena. The contract claims that
/// no limit is set on what the new arena may allocate.
#[verifier::external_body]
fn bump_new() -> (bump: Bump)
    ensures
        bump_limit(bump) is None,
{
    Bump::new()
}

/// Calls `Bump::alloc_str`, which copies `text` into the arena and returns the
/// copy. With a limit set on the arena the call fails when the limit is
/// reached, so `requires` leaves such arenas out; without one it fails only
/// where the allocator does. The contract claims that the copy reads as `text`
/// does.
#[verifier::external_body]
fn bump_alloc_str<'a>(bump: &'a Bump, text: &str) -> (stored: &'a str)
    requires
        bump_limit(*bump) is None,
    ensures
        stored@ == text@,
{
    bump.alloc_str(text)
}

/// Calls `Bump::reset`, which gives up everything allocated in the arena at
/// once. The contract claims that the arena keeps its limit, and nothing of
/// the storage: once the borrows of its strings have ended, the arena holds
/// nothing that a contract speaks of.
#[verifier::external_body]
fn arena_reset(arena: &mut Arena)
    ensures
        bump_limit(final(arena).bump) == bump_limit(old(arena).bump),
{
    arena.bump.reset()
}

/// Calls `Bump::allocated_bytes`, the number of bytes in the chunks that the
/// arena has taken from the allocator. The contract claims nothing of it: the
/// number depends on how the arena sizes its chunks.
#[verifier::external_body]
fn bump_allocated_bytes(bump: &Bump) -> usize {
    bump.allocated_bytes()
}

impl Arena {
    /// Whether no limit is set on what the arena may allocate, so that a
    /// string can be stored in it as long as the allocator has memory. This
    /// holds of every arena.
    #[verifier::type_invariant]
    pub closed spec fn unlimited(&self) -> bool {
        bump_limit(self.bump) is None
    }

    /// Creates an arena that holds nothing and has no limit on what it may
    /// hold.
    pub fn new() -> (arena: Arena)
        ensures
            arena.unlimited(),
    {
        Arena { bump: bump_new() }
    }

    /// Frees the bytes of every string at once. Rust permits the call only
    /// when no table borrows the arena, so no string that a table can still
    /// hand out is lost. The arena stays without a limit, and can serve new
    /// tables.
    pub fn reset(&mut self)
        ensures
            final(self).unlimited(),
    {
        proof {
            use_type_invariant(&*self);
        }
        arena_reset(self)
    }

    /// The number of bytes that the arena has taken from the allocator.
    pub fn allocated_bytes(&self) -> usize {
        bump_allocated_bytes(&self.bump)
    }

    /// Copies `text` into the arena and returns the copy, which lives as long
    /// as the arena is borrowed.
    fn store<'a>(&'a self, text: &str) -> (stored: &'a str)
        ensures
            stored@ == text@,
    {
        proof {
            use_type_invariant(self);
        }
        bump_alloc_str(&self.bump, text)
    }
}

/// The identity of an interned string: its index in the table that issued it.
/// A symbol means something only together with that table, and only until the
/// table is reset.
#[derive(Clone, Copy, Debug, PartialEq, Eq, Structural, PartialOrd, Ord, Hash)]
pub struct Symbol(pub u32);

impl Default for Symbol {
    fn default() -> (symbol: Symbol)
        ensures
            symbol == Symbol(0),
    {
        Symbol(0)
    }
}

/// What interning `text` makes of a table with the strings `table`, and the
/// identity that it returns: a string that the table holds keeps its index,
/// and a new one goes to the end.
pub open spec fn interned(table: Seq<Seq<char>>, text: Seq<char>) -> (Seq<Seq<char>>, int) {
    if table.contains(text) {
        (table, table.index_of(text))
    } else {
        (table.push(text), table.len() as int)
    }
}

/// The number by which the index finds a string: the hash of its bytes.
spec fn hash_of(text: Seq<char>) -> u64 {
    DefaultHasher::spec_finish(seq![vstd::utf8::encode_utf8(text)])
}

/// Computes [`hash_of`].
fn hash(text: &str) -> (h: u64)
    ensures
        h == hash_of(text@),
{
    let mut hasher = DefaultHasher::new();
    hasher.write(text.as_bytes());
    hasher.finish()
}

/// A table of interned strings. The strings live in an arena that the table
/// borrows; the table keeps them in the order of their identities, and an
/// index from the hash of each string to the identities of the strings with
/// that hash.
pub struct StringTable<'a> {
    map: HashMap<u64, Vec<u32>>,
    table: Vec<&'a str>,
    arena: &'a Arena,
}

impl<'a> View for StringTable<'a> {
    type V = Seq<Seq<char>>;

    /// The interned strings, each at the index that is its identity.
    closed spec fn view(&self) -> Seq<Seq<char>> {
        self.table@.map_values(|s: &str| s@)
    }
}

impl<'a> StringTable<'a> {
    /// The invariant of the table: identities fit in 32 bits, no string is
    /// held twice, and the index finds exactly the strings held.
    pub closed spec fn wf(&self) -> bool {
        &&& self.table@.len() <= u32::MAX
        &&& self@.no_duplicates()
        &&& forall|i: int|
            0 <= i < self@.len() ==> self.map@.contains_key(hash_of(#[trigger] self@[i]))
                && self.map@[hash_of(self@[i])]@.contains(i as u32)
        &&& forall|h: u64, k: int|
            self.map@.contains_key(h) && 0 <= k < self.map@[h]@.len() ==> (
            #[trigger] self.map@[h]@[k]) < self@.len() && hash_of(self@[self.map@[h]@[k] as int])
                == h
    }

    /// Whether `text` can be interned: it is held already, or an identity is
    /// left for it.
    pub open spec fn has_room_for(&self, text: Seq<char>) -> bool {
        self@.contains(text) || self@.len() < u32::MAX
    }

    /// No string is held twice, and every identity fits in 32 bits.
    pub proof fn lemma_wf_view(&self)
        requires
            self.wf(),
        ensures
            self@.no_duplicates(),
            self@.len() <= u32::MAX,
    {
    }

    /// Creates a table over `arena` that holds the empty string, whose
    /// identity is [`Symbol::empty`].
    pub fn new(arena: &'a Arena) -> (table: StringTable<'a>)
        ensures
            table.wf(),
            table@ == seq![Seq::<char>::empty()],
    {
        let mut table = StringTable { map: HashMap::new(), table: Vec::new(), arena };
        proof {
            reveal_strlit("");
            assert(""@ =~= Seq::<char>::empty());
        }
        table.get_symbol("");
        table
    }

    /// The number of strings that the table holds, which is the identity
    /// that the next new string gets.
    pub fn len(&self) -> (n: usize)
        ensures
            n == self@.len(),
    {
        self.table.len()
    }

    /// Forgets every string: the table is empty, and identities start at zero
    /// again. Symbols issued before mean nothing in it any more. The bytes
    /// stay in the arena until [`Arena::reset`], which Rust permits once no
    /// table borrows the arena.
    pub fn reset(&mut self)
        ensures
            final(self).wf(),
            final(self)@ == Seq::<Seq<char>>::empty(),
    {
        self.map.clear();
        self.table.clear();
    }

    /// The number of bytes that the arena has taken from the allocator.
    pub fn allocated_bytes(&self) -> usize {
        self.arena.allocated_bytes()
    }

    /// The identity of `id`, whose hash is `h`, if the table holds it.
    fn lookup(&self, h: u64, id: &str) -> (found: Option<Symbol>)
        requires
            self.wf(),
            h == hash_of(id@),
        ensures
            match found {
                Some(symbol) => self@.contains(id@) && symbol.0 == self@.index_of(id@),
                None => !self@.contains(id@),
            },
    {
        match self.map.get(&h) {
            Some(bucket) => {
                let mut k: usize = 0;
                while k < bucket.len()
                    invariant
                        self.wf(),
                        h == hash_of(id@),
                        self.map@.contains_key(h),
                        bucket == self.map@[h],
                        k <= bucket@.len(),
                        forall|j: int| 0 <= j < k ==> self@[bucket@[j] as int] != id@,
                    decreases bucket@.len() - k,
                {
                    let index: u32 = bucket[k];
                    if crate::text::equal(self.table[index as usize], id) {
                        assert(self@[index as int] == id@);
                        return Some(Symbol(index));
                    }
                    k = k + 1;
                }
                proof {
                    if self@.contains(id@) {
                        let i = self@.index_of(id@);
                        assert(bucket@.contains(i as u32));
                    }
                }
                None
            },
            None => {
                proof {
                    if self@.contains(id@) {
                        let i = self@.index_of(id@);
                        assert(self.map@.contains_key(hash_of(self@[i])));
                    }
                }
                None
            },
        }
    }

    /// The identity of `id`, if the table holds it. The table stays as it is.
    pub fn find(&self, id: &str) -> (found: Option<Symbol>)
        requires
            self.wf(),
        ensures
            match found {
                Some(symbol) => self@.contains(id@) && symbol.0 == self@.index_of(id@),
                None => !self@.contains(id@),
            },
    {
        self.lookup(hash(id), id)
    }

    /// Takes `id`, which the table does not hold, into the table, under the
    /// next free identity.
    fn alloc_symbol(&mut self, h: u64, id: &str) -> (symbol: Symbol)
        requires
            old(self).wf(),
            h == hash_of(id@),
            !old(self)@.contains(id@),
            old(self)@.len() < u32::MAX,
        ensures
            final(self).wf(),
            final(self)@ == old(self)@.push(id@),
            symbol.0 == old(self)@.len(),
    {
        let index: u32 = self.table.len() as u32;
        let string = self.arena.store(id);
        self.table.push(string);
        let mut bucket = match self.map.remove(&h) {
            Some(bucket) => bucket,
            None => Vec::new(),
        };
        bucket.push(index);
        self.map.insert(h, bucket);
        proof {
            let before = old(self)@;
            let held = old(self).map@;
            assert forall|i: int| 0 <= i < self@.len() implies self.map@.contains_key(
                hash_of(#[trigger] self@[i]),
            ) && self.map@[hash_of(self@[i])]@.contains(i as u32) by {
                if i < before.len() {
                    if hash_of(before[i]) == h {
                        let j = held[h]@.index_of(i as u32);
                        assert(bucket@[j] == i as u32);
                    }
                } else {
                    assert(bucket@[bucket@.len() - 1] == index);
                }
            }
            assert forall|g: u64, k: int|
                self.map@.contains_key(g) && 0 <= k < self.map@[g]@.len() implies (
            #[trigger] self.map@[g]@[k]) < self@.len() && hash_of(self@[self.map@[g]@[k] as int])
                == g by {
                if g != h {
                    assert(held.contains_key(g));
                } else if k < bucket@.len() - 1 {
                    assert(bucket@[k] == held[h]@[k]);
                }
            }
        }
        Symbol(index)
    }

    /// Interns `id`: returns the identity that `id` has in the table, after
    /// taking it into the table if it was not there.
    pub fn get_symbol(&mut self, id: &str) -> (symbol: Symbol)
        requires
            old(self).wf(),
            old(self).has_room_for(id@),
        ensures
            final(self).wf(),
            (final(self)@, symbol.0 as int) == interned(old(self)@, id@),
    {
        let h = hash(id);
        match self.lookup(h, id) {
            Some(symbol) => symbol,
            None => self.alloc_symbol(h, id),
        }
    }

    /// The string whose identity is `symbol`.
    pub fn get_string(&self, symbol: Symbol) -> (text: &'a str)
        requires
            self.wf(),
            symbol.0 < self@.len(),
        ensures
            text@ == self@[symbol.0 as int],
    {
        self.table[symbol.0 as usize]
    }
}

impl Symbol {
    /// The identity of the empty string in every table that has not been
    /// reset: the first identity there is.
    pub fn empty() -> (symbol: Symbol)
        ensures
            symbol == Symbol(0),
    {
        Symbol(0)
    }

    /// Whether this is the identity of the empty string.
    pub fn is_empty(self) -> (r: bool)
        ensures
            r == (self == Symbol(0)),
    {
        self.0 == 0
    }

    /// The string that `table` holds for this symbol.
    pub fn as_str<'a>(self, table: &StringTable<'a>) -> (text: &'a str)
        requires
            table.wf(),
            self.0 < table@.len(),
        ensures
            text@ == table@[self.0 as int],
    {
        table.get_string(self)
    }

    /// An owned copy of the string that `table` holds for this symbol.
    pub fn as_string(self, table: &StringTable<'_>) -> (text: String)
        requires
            table.wf(),
            self.0 < table@.len(),
        ensures
            text@ == table@[self.0 as int],
    {
        self.as_str(table).to_owned()
    }

    /// The symbol as a reader of a trace wants it: the sign for the empty
    /// word for the identity zero, else the string that `table` holds.
    pub fn debug_string(self, table: &StringTable<'_>) -> (text: String)
        requires
            table.wf(),
            self.0 < table@.len(),
        ensures
            text@ == if self == Symbol(0) {
                seq!['\u{25b}']
            } else {
                table@[self.0 as int]
            },
    {
        if self.is_empty() {
            proof {
                reveal_strlit("\u{25b}");
            }
            "\u{25b}".to_owned()
        } else {
            self.as_string(table)
        }
    }

    /// Forgets every string of `table`: see [`StringTable::reset`].
    pub fn reset(table: &mut StringTable<'_>)
        ensures
            final(table).wf(),
            final(table)@ == Seq::<Seq<char>>::empty(),
    {
        table.reset()
    }

    /// The number of bytes that the arena of `table` has taken from the
    /// allocator.
    pub fn allocated_bytes(table: &StringTable<'_>) -> usize {
        table.allocated_bytes()
    }
}

/// A value that stands for a string and can be interned.
pub trait ToSymbol: Sized {
    /// The string that the value stands for.
    spec fn text(self) -> Seq<char>;

    /// Interns the string in `table` and returns its identity.
    fn into_symbol(self, table: &mut StringTable<'_>) -> (symbol: Symbol)
        requires
            old(table).wf(),
            old(table).has_room_for(self.text()),
        ensures
            final(table).wf(),
            (final(table)@, symbol.0 as int) == interned(old(table)@, self.text()),
    ;
}

impl ToSymbol for String {
    open spec fn text(self) -> Seq<char> {
        self@
    }

    fn into_symbol(self, table: &mut StringTable<'_>) -> (symbol: Symbol) {
        table.get_symbol(self.as_str())
    }
}

impl<'b> ToSymbol for &'b str {
    open spec fn text(self) -> Seq<char> {
        self@
    }

    fn into_symbol(self, table: &mut StringTable<'_>) -> (symbol: Symbol) {
        table.get_symbol(self)
    }
}

/// Interning the same string again returns the same identity and leaves the
/// table as it is.
pub proof fn lemma_intern_again(table: Seq<Seq<char>>, text: Seq<char>)
    ensures
        interned(interned(table, text).0, text) == interned(table, text),
{
    if !table.contains(text) {
        let grown = table.push(text);
        assert(grown[table.len() as int] == text);
        assert(grown.index_of(text) == table.len());
    }
}

/// Two different strings, interned one after the other, get different
/// identities.
pub proof fn lemma_intern_distinct(table: Seq<Seq<char>>, a: Seq<char>, b: Seq<char>)
    requires
        a != b,
    ensures
        interned(interned(table, a).0, b).1 != interned(table, a).1,
{
    lemma_intern_resolves(table, a);
    let first = interned(table, a);
    lemma_intern_resolves(first.0, b);
    lemma_intern_keeps(first.0, b, first.1);
}

/// The identity that interning returns resolves to the string interned.
pub proof fn lemma_intern_resolves(table: Seq<Seq<char>>, text: Seq<char>)
    ensures
        0 <= interned(table, text).1 < interned(table, text).0.len(),
        interned(table, text).0[interned(table, text).1] == text,
{
    if table.contains(text) {
        assert(table[table.index_of(text)] == text);
    }
}

/// Interning leaves every string that the table holds under its identity.
pub proof fn lemma_intern_keeps(table: Seq<Seq<char>>, text: Seq<char>, i: int)
    requires
        0 <= i < table.len(),
    ensures
        interned(table, text).0[i] == table[i],
{
}

/// In a table that holds the empty string first, as every table does until
/// it is reset, the first identity and no other resolves to the empty string.
pub proof fn lemma_empty_is_first(table: Seq<Seq<char>>, i: int)
    requires
        table.no_duplicates(),
        0 <= i < table.len(),
        table[0] == Seq::<char>::empty(),
    ensures
        (i == 0) == (table[i] == Seq::<char>::empty()),
{
}

/// In a table that was reset, the first string interned gets the identity
/// zero, whatever the table held before.
pub proof fn lemma_intern_after_reset(text: Seq<char>)
    ensures
        interned(Seq::<Seq<char>>::empty(), text) == (seq![text], 0int),
{
}

} // verus!
