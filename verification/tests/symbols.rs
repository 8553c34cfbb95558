use frontend::symbol::{Arena, StringTable, Symbol, ToSymbol};
use std::collections::HashSet;

#[test]
fn new_table_holds_the_empty_string() {
    let arena = Arena::new();
    let mut table = StringTable::new(&arena);
    assert_eq!(table.get_string(Symbol(0)), "");
    assert_eq!(table.get_symbol(""), Symbol(0));
    assert_eq!(Symbol::empty(), Symbol(0));
    assert_eq!(Symbol::default(), Symbol(0));
}

#[test]
fn interning_twice_gives_one_symbol() {
    let arena = Arena::new();
    let mut table = StringTable::new(&arena);
    let foo1 = table.get_symbol("foo");
    let foo2 = table.get_symbol("foo");
    let bar = table.get_symbol("bar");
    assert_eq!(foo1, foo2);
    assert_ne!(foo1, bar);
    assert_eq!(table.get_symbol("bar"), bar);
}

#[test]
fn identities_are_given_in_order_from_one() {
    let arena = Arena::new();
    let mut table = StringTable::new(&arena);
    assert_eq!(table.get_symbol("a"), Symbol(1));
    assert_eq!(table.get_symbol("b"), Symbol(2));
    assert_eq!(table.get_symbol("a"), Symbol(1));
    assert_eq!(table.get_symbol("c"), Symbol(3));
}

#[test]
fn symbol_resolves_to_the_string_interned() {
    let arena = Arena::new();
    let mut table = StringTable::new(&arena);
    let words = ["begin", "end", "é", "", "a b", "😀😀", "end "];
    for w in words {
        let s = table.get_symbol(w);
        assert_eq!(table.get_string(s), w);
        assert_eq!(s.as_str(&table), w);
        assert_eq!(s.as_string(&table), w.to_string());
    }
}

#[test]
fn earlier_symbols_keep_their_strings() {
    let arena = Arena::new();
    let mut table = StringTable::new(&arena);
    let one = table.get_symbol("one");
    let text = table.get_string(one);
    for i in 0..500 {
        table.get_symbol(&format!("filler{}", i));
    }
    assert_eq!(text, "one");
    assert_eq!(table.get_string(one), "one");
    assert_eq!(table.get_symbol("one"), one);
}

#[test]
fn interned_string_does_not_borrow_its_source() {
    let arena = Arena::new();
    let mut table = StringTable::new(&arena);
    let mut source = String::from("first");
    let s = table.get_symbol(&source);
    source.clear();
    source.push_str("other");
    assert_eq!(table.get_string(s), "first");
    drop(source);
    assert_eq!(s.as_string(&table), "first");
}

#[test]
fn many_strings_get_distinct_symbols() {
    let arena = Arena::new();
    let mut table = StringTable::new(&arena);
    let mut seen = HashSet::new();
    for i in 0..2000u32 {
        let s = table.get_symbol(&format!("name{}", i));
        assert_eq!(s, Symbol(i + 1));
        assert!(seen.insert(s));
    }
    for i in 0..2000u32 {
        assert_eq!(table.get_symbol(&format!("name{}", i)), Symbol(i + 1));
        assert_eq!(table.get_string(Symbol(i + 1)), format!("name{}", i));
    }
}

#[test]
fn reset_starts_the_identities_again() {
    let arena = Arena::new();
    let mut table = StringTable::new(&arena);
    let foo = table.get_symbol("foo");
    assert_eq!(foo, Symbol(1));
    table.reset();
    assert_eq!(table.get_symbol("foo"), Symbol(0));
    assert_eq!(table.get_symbol("bar"), Symbol(1));
    assert_eq!(table.get_string(Symbol(0)), "foo");
    Symbol::reset(&mut table);
    assert_eq!(table.get_symbol(""), Symbol(0));
    assert_eq!(table.get_symbol("foo"), Symbol(1));
}

#[test]
fn first_string_gets_the_first_identity_again_after_reset() {
    let arena = Arena::new();
    let mut table = StringTable::new(&arena);
    assert_eq!(table.get_symbol(""), Symbol(0));
    table.get_symbol("x");
    table.reset();
    assert_eq!(table.get_symbol(""), Symbol(0));
}

#[test]
fn arena_can_be_reset_between_tables() {
    let mut arena = Arena::new();
    {
        let mut table = StringTable::new(&arena);
        table.get_symbol(&"x".repeat(10_000));
    }
    assert!(arena.allocated_bytes() >= 10_000);
    arena.reset();
    let mut table = StringTable::new(&arena);
    assert_eq!(table.get_symbol("again"), Symbol(1));
    assert_eq!(table.get_string(Symbol(1)), "again");
}

#[test]
fn allocated_bytes_cover_the_strings_held() {
    let arena = Arena::new();
    let mut table = StringTable::new(&arena);
    let before = table.allocated_bytes();
    table.get_symbol(&"y".repeat(100_000));
    assert!(table.allocated_bytes() >= 100_000);
    assert!(table.allocated_bytes() >= before);
    assert_eq!(Symbol::allocated_bytes(&table), table.allocated_bytes());
    assert_eq!(arena.allocated_bytes(), table.allocated_bytes());
}

#[test]
fn is_empty_knows_the_first_identity() {
    let arena = Arena::new();
    let mut table = StringTable::new(&arena);
    assert!(table.get_symbol("").is_empty());
    assert!(!table.get_symbol("x").is_empty());
    assert!(Symbol(0).is_empty());
    assert!(!Symbol(7).is_empty());
}

#[test]
fn into_symbol_interns_strings_and_slices() {
    let arena = Arena::new();
    let mut table = StringTable::new(&arena);
    let name = "foo";
    let sym = name.into_symbol(&mut table);
    assert_eq!(sym, table.get_symbol("foo"));
    assert_eq!(String::from("foo").into_symbol(&mut table), sym);
    assert_ne!(String::from("bar").into_symbol(&mut table), sym);
    assert_eq!("bar".into_symbol(&mut table), Symbol(2));
}

#[test]
fn debug_string_shows_the_empty_word_by_its_sign() {
    let arena = Arena::new();
    let mut table = StringTable::new(&arena);
    let foo = table.get_symbol("foo");
    assert_eq!(Symbol(0).debug_string(&table), "\u{25b}");
    assert_eq!(foo.debug_string(&table), "foo");
}

#[test]
fn symbols_compare_and_hash_by_identity() {
    let arena = Arena::new();
    let mut table = StringTable::new(&arena);
    let a = table.get_symbol("zzz");
    let b = table.get_symbol("aaa");
    assert!(a < b);
    let mut set = HashSet::new();
    set.insert(a);
    set.insert(b);
    set.insert(table.get_symbol("zzz"));
    assert_eq!(set.len(), 2);
}

#[test]
fn two_tables_give_identities_of_their_own() {
    let arena = Arena::new();
    let mut one = StringTable::new(&arena);
    let mut two = StringTable::new(&arena);
    assert_eq!(one.get_symbol("x"), Symbol(1));
    assert_eq!(two.get_symbol("y"), Symbol(1));
    assert_eq!(one.get_string(Symbol(1)), "x");
    assert_eq!(two.get_string(Symbol(1)), "y");
}

#[test]
fn len_counts_the_strings_held() {
    let arena = Arena::new();
    let mut table = StringTable::new(&arena);
    assert_eq!(table.len(), 1);
    table.get_symbol("a");
    table.get_symbol("b");
    table.get_symbol("a");
    assert_eq!(table.len(), 3);
    table.reset();
    assert_eq!(table.len(), 0);
}

#[test]
fn find_does_not_intern() {
    let arena = Arena::new();
    let mut table = StringTable::new(&arena);
    assert_eq!(table.find(""), Some(Symbol(0)));
    assert_eq!(table.find("x"), None);
    assert_eq!(table.len(), 1);
    let x = table.get_symbol("x");
    assert_eq!(table.find("x"), Some(x));
    assert_eq!(table.find("X"), None);
    table.reset();
    assert_eq!(table.find(""), None);
    assert_eq!(table.find("x"), None);
}

#[test]
fn strings_that_differ_in_one_byte_are_distinct() {
    let arena = Arena::new();
    let mut table = StringTable::new(&arena);
    let a = table.get_symbol("abc");
    let b = table.get_symbol("abd");
    let c = table.get_symbol("ab");
    let d = table.get_symbol("abc\0");
    let all = [a, b, c, d];
    for i in 0..4 {
        for j in 0..4 {
            assert_eq!(all[i] == all[j], i == j);
        }
    }
}

#[test]
fn arena_takes_large_strings_before_and_after_a_reset() {
    let mut arena = Arena::new();
    {
        let mut table = StringTable::new(&arena);
        let big = "a".repeat(1_000_000);
        let s = table.get_symbol(&big);
        assert_eq!(table.get_string(s).len(), 1_000_000);
    }
    arena.reset();
    let mut table = StringTable::new(&arena);
    let big = "b".repeat(2_000_000);
    let s = table.get_symbol(&big);
    assert_eq!(table.get_string(s), big);
}
