//! The tape and its builder, call by call.

use lark_tape::tree::checked_pos;
use lark_tape::{
    Child, CompiledRule, Meta, OutputBuilder, OutputContext, ParseTree, SymbolId, SymbolTable,
    TapeBuilder, TapeEntry, Token, Tree,
};

fn names(names: &[&str]) -> SymbolTable {
    SymbolTable { names: names.iter().map(|n| n.to_string()).collect() }
}

fn rules(names: &[&str]) -> Vec<CompiledRule> {
    names.iter().map(|n| CompiledRule { tree_name: n.to_string() }).collect()
}

/// A token as the tape needs it: without strings of its own.
fn token(id: u32, start: u32, end: u32) -> Token {
    Token {
        type_id: SymbolId(id),
        type_: String::new(),
        value: String::new(),
        line: 1,
        column: start + 1,
        end_line: 1,
        end_column: end + 1,
        start_pos: start,
        end_pos: end,
    }
}

fn byte_span(entry: &TapeEntry) -> (u32, u32) {
    match entry {
        TapeEntry::Token { byte_start, byte_end, .. } => (*byte_start, *byte_end),
        _ => panic!("not a token entry"),
    }
}

fn only_tree(tree: ParseTree) -> Tree {
    match tree {
        ParseTree::Tree(t) => t,
        other => panic!("not a tree: {other:?}"),
    }
}

#[test]
fn calls_return_consecutive_indices() {
    let (rules, symbols) = (rules(&["r"]), names(&["A"]));
    let ctx = OutputContext { rules: &rules, symbols: &symbols };
    let mut b = TapeBuilder::new();
    assert_eq!(b.token(token(0, 0, 1), "ab", &ctx), 0);
    assert_eq!(b.placeholder(&ctx), 1);
    let mut kids = vec![0, 1];
    assert_eq!(b.reduce(0, &mut kids, &Meta::default(), &ctx), 2);
    assert_eq!(kids, vec![0, 1]);
    assert_eq!(b.token(token(0, 1, 2), "ab", &ctx), 3);
    let tape = b.into_tape("ab", &rules, &symbols, 2);
    assert_eq!(tape.entries().len(), 4);
    assert_eq!(tape.root(), 2);
}

#[test]
fn token_entry_keeps_positions_and_byte_span() {
    let (rules, symbols) = (rules(&[]), names(&["A", "B"]));
    let ctx = OutputContext { rules: &rules, symbols: &symbols };
    let mut b = TapeBuilder::new();
    let t = Token {
        type_id: SymbolId(1),
        type_: "ignored".to_string(),
        value: "ignored".to_string(),
        line: 3,
        column: 4,
        end_line: 5,
        end_column: 6,
        start_pos: 1,
        end_pos: 3,
    };
    let idx = b.token(t, "aé日x", &ctx);
    let tape = b.into_tape("aé日x", &rules, &symbols, idx);
    match &tape.entries()[0] {
        TapeEntry::Token {
            type_id,
            byte_start,
            byte_end,
            line,
            column,
            end_line,
            end_column,
            start_pos,
            end_pos,
        } => {
            assert_eq!(*type_id, SymbolId(1));
            assert_eq!((*byte_start, *byte_end), (1, 6));
            assert_eq!((*line, *column, *end_line, *end_column), (3, 4, 5, 6));
            assert_eq!((*start_pos, *end_pos), (1, 3));
        }
        other => panic!("not a token entry: {other:?}"),
    }
    assert_eq!(tape.token_text(&tape.entries()[0]), Some("é日"));
    match tape.materialize() {
        ParseTree::Token(t) => {
            assert_eq!((t.type_.as_str(), t.value.as_str()), ("B", "é日"));
            assert_eq!(t.type_id, SymbolId(1));
            assert_eq!((t.line, t.column, t.end_line, t.end_column), (3, 4, 5, 6));
            assert_eq!((t.start_pos, t.end_pos), (1, 3));
        }
        other => panic!("not a token: {other:?}"),
    }
}

#[test]
fn byte_offsets_count_every_utf8_width() {
    let (rules, symbols) = (rules(&[]), names(&["A"]));
    let ctx = OutputContext { rules: &rules, symbols: &symbols };
    // One, two, three and four bytes, and the edges between the widths.
    let input = "a\u{7f}\u{80}\u{7ff}\u{800}\u{ffff}\u{10000}\u{10ffff}";
    let offsets = [0, 1, 2, 4, 6, 9, 12, 16, 20];
    for start in 0..8u32 {
        for end in start..=8 {
            let mut b = TapeBuilder::new();
            let idx = b.token(token(0, start, end), input, &ctx);
            let tape = b.into_tape(input, &rules, &symbols, idx);
            let span = (offsets[start as usize], offsets[end as usize]);
            assert_eq!(byte_span(&tape.entries()[0]), span);
            let text: String = input
                .chars()
                .skip(start as usize)
                .take((end - start) as usize)
                .collect();
            assert_eq!(tape.token_text(&tape.entries()[0]), Some(text.as_str()));
        }
    }
}

#[test]
fn tokens_may_come_in_any_order() {
    let (rules, symbols) = (rules(&[]), names(&["A"]));
    let ctx = OutputContext { rules: &rules, symbols: &symbols };
    let input = "日本語 wörld";
    let mut b = TapeBuilder::new();
    for (start, end) in [(4, 9), (0, 3), (1, 2), (5, 6), (5, 6), (0, 0)] {
        b.token(token(0, start, end), input, &ctx);
    }
    let tape = b.into_tape(input, &rules, &symbols, 0);
    let texts: Vec<Option<&str>> = tape.entries().iter().map(|e| tape.token_text(e)).collect();
    assert_eq!(
        texts,
        vec![Some("wörld"), Some("日本語"), Some("本"), Some("ö"), Some("ö"), Some("")]
    );
}

#[test]
fn offsets_grow_strictly_and_equal_ascii_positions() {
    let (rules, symbols) = (rules(&[]), names(&["A"]));
    let ctx = OutputContext { rules: &rules, symbols: &symbols };
    // One builder is asked for every position, from the last to the first, and
    // then again; a fresh one is asked for each.
    for input in ["plain text", "é日\u{10000}a"] {
        let count = input.chars().count() as u32;
        let mut used = TapeBuilder::new();
        let order: Vec<u32> = (0..=count).rev().chain(0..=count).collect();
        for &n in &order {
            used.token(token(0, n, n), input, &ctx);
        }
        let used = used.into_tape(input, &rules, &symbols, 0);
        for (entry, &n) in used.entries().iter().zip(&order) {
            let mut fresh = TapeBuilder::new();
            fresh.token(token(0, n, n), input, &ctx);
            let fresh = fresh.into_tape(input, &rules, &symbols, 0);
            assert_eq!(byte_span(entry), byte_span(&fresh.entries()[0]));
            if input.is_ascii() {
                assert_eq!(byte_span(entry), (n, n));
            }
        }
        let rising = &used.entries()[count as usize + 1..];
        assert!(rising.windows(2).all(|w| byte_span(&w[0]) < byte_span(&w[1])));
    }
}

#[test]
fn positions_behind_the_end_stop_there() {
    let (rules, symbols) = (rules(&[]), names(&["A"]));
    let ctx = OutputContext { rules: &rules, symbols: &symbols };
    let mut b = TapeBuilder::new();
    b.token(token(0, 1, 10), "éa", &ctx);
    b.token(token(0, 7, 9), "éa", &ctx);
    let tape = b.into_tape("éa", &rules, &symbols, 0);
    assert_eq!(byte_span(&tape.entries()[0]), (2, 3));
    assert_eq!(tape.token_text(&tape.entries()[0]), Some("a"));
    assert_eq!(byte_span(&tape.entries()[1]), (3, 3));
    assert_eq!(tape.token_text(&tape.entries()[1]), Some(""));

    let mut b = TapeBuilder::new();
    b.token(token(0, 0, 4), "", &ctx);
    let tape = b.into_tape("", &rules, &symbols, 0);
    assert_eq!(byte_span(&tape.entries()[0]), (0, 0));
}

#[test]
fn a_cursor_left_by_another_input_counts_on() {
    let (rules, symbols) = (rules(&[]), names(&["A"]));
    let ctx = OutputContext { rules: &rules, symbols: &symbols };
    let mut b = TapeBuilder::new();
    // Two characters and four bytes in; in the other input four bytes are four
    // characters.
    b.token(token(0, 0, 2), "éé", &ctx);
    b.token(token(0, 2, 4), "abcdef", &ctx);
    // Going back starts over in the other input.
    b.token(token(0, 1, 2), "abcdef", &ctx);
    let tape = b.into_tape("abcdef", &rules, &symbols, 0);
    assert_eq!(byte_span(&tape.entries()[1]), (4, 6));
    assert_eq!(byte_span(&tape.entries()[2]), (1, 2));
}

#[test]
fn node_entries_share_one_child_array() {
    let (rules, symbols) = (rules(&["leaf", "pair"]), names(&["A"]));
    let ctx = OutputContext { rules: &rules, symbols: &symbols };
    let meta = Meta {
        line: Some(1),
        column: Some(2),
        end_line: Some(3),
        end_column: Some(4),
        start_pos: Some(5),
        end_pos: Some(6),
    };
    let mut b = TapeBuilder::new();
    let a = b.token(token(0, 0, 1), "xy", &ctx);
    let leaf = b.reduce(0, &mut vec![a], &Meta::default(), &ctx);
    let empty = b.reduce(0, &mut Vec::new(), &Meta::default(), &ctx);
    let absent = b.placeholder(&ctx);
    let top = b.reduce(1, &mut vec![leaf, empty, absent, leaf], &meta, &ctx);
    let tape = b.into_tape("xy", &rules, &symbols, top);
    let entries = tape.entries();
    assert_eq!(tape.children(&entries[leaf as usize]), &[a]);
    assert_eq!(tape.children(&entries[empty as usize]), &[] as &[u32]);
    assert_eq!(tape.children(&entries[top as usize]), &[leaf, empty, absent, leaf]);
    match &entries[top as usize] {
        TapeEntry::Node { rule, kids_start, kids_len, meta } => {
            assert_eq!((*rule, *kids_start, *kids_len), (1, 1, 4));
            assert_eq!(meta.end_pos, Some(6));
        }
        other => panic!("not a node entry: {other:?}"),
    }
    // Neither tokens nor absent entries have children; only tokens have text.
    assert!(tape.children(&entries[a as usize]).is_empty());
    assert!(tape.children(&entries[absent as usize]).is_empty());
    assert_eq!(tape.token_text(&entries[top as usize]), None);
    assert_eq!(tape.token_text(&entries[absent as usize]), None);

    let tree = only_tree(tape.materialize());
    assert_eq!(tree.data, "pair");
    assert_eq!(tree.meta.line, Some(1));
    assert_eq!(tree.meta.column, Some(2));
    assert_eq!(tree.children.len(), 4);
    assert!(matches!(&tree.children[1], Child::Tree(t) if t.data == "leaf" && t.children.is_empty()));
    assert!(matches!(&tree.children[2], Child::Absent));
    assert_eq!(format!("{:?}", tree.children[0]), format!("{:?}", tree.children[3]));
}

#[test]
fn token_strings_make_no_difference() {
    let (rules, symbols) = (rules(&["r"]), names(&["A", "B"]));
    let ctx = OutputContext { rules: &rules, symbols: &symbols };
    let run = |strings: [(&str, &str); 2]| -> (String, String) {
        let mut b = TapeBuilder::new();
        let mut kids = Vec::new();
        for (i, (type_, value)) in strings.iter().enumerate() {
            let i = i as u32;
            let bare = token(i, i, i + 1);
            let t = Token { type_: type_.to_string(), value: value.to_string(), ..bare };
            kids.push(b.token(t, "é日", &ctx));
        }
        let top = b.reduce(0, &mut kids, &Meta::default(), &ctx);
        let tape = b.into_tape("é日", &rules, &symbols, top);
        (format!("{:?}", tape.entries()), format!("{:?}", tape.materialize()))
    };
    let spelled_out = run([("A", "é"), ("B", "日")]);
    assert_eq!(run([("", ""), ("", "")]), spelled_out);
    assert_eq!(run([("B", "no"), ("A", "neither")]), spelled_out);
}

#[test]
fn children_precede_their_parents() {
    let (rules, symbols) = (rules(&["r"]), names(&["A"]));
    let ctx = OutputContext { rules: &rules, symbols: &symbols };
    let mut b = TapeBuilder::new();
    let mut last = b.token(token(0, 0, 1), "abcdef", &ctx);
    for i in 1..6 {
        let next = b.token(token(0, i, i + 1), "abcdef", &ctx);
        last = b.reduce(0, &mut vec![last, next], &Meta::default(), &ctx);
    }
    let tape = b.into_tape("abcdef", &rules, &symbols, last);
    for (i, entry) in tape.entries().iter().enumerate() {
        assert!(tape.children(entry).iter().all(|&kid| (kid as usize) < i));
    }
}

#[test]
fn orphans_do_not_show() {
    let (rules, symbols) = (rules(&["r"]), names(&["A", "PUNCT"]));
    let ctx = OutputContext { rules: &rules, symbols: &symbols };
    let mut b = TapeBuilder::new();
    let open = b.token(token(1, 0, 1), "(a)", &ctx);
    let a = b.token(token(0, 1, 2), "(a)", &ctx);
    let close = b.token(token(1, 2, 3), "(a)", &ctx);
    let top = b.reduce(0, &mut vec![a], &Meta::default(), &ctx);
    let tape = b.into_tape("(a)", &rules, &symbols, top);
    assert_eq!(tape.entries().len(), 4);
    for entry in tape.entries() {
        assert!(!tape.children(entry).contains(&open));
        assert!(!tape.children(entry).contains(&close));
    }
    let tree = only_tree(tape.materialize());
    assert_eq!(tree.children.len(), 1);
    assert!(matches!(&tree.children[0], Child::Token(t) if t.value == "a" && t.type_ == "A"));
}

#[test]
fn later_entries_leave_earlier_ones_alone() {
    let (rules, symbols) = (rules(&["r", "s"]), names(&["A"]));
    let ctx = OutputContext { rules: &rules, symbols: &symbols };
    let run = |extra: bool| -> String {
        let mut b = TapeBuilder::new();
        let a = b.token(token(0, 0, 1), "ab", &ctx);
        let top = b.reduce(0, &mut vec![a], &Meta::default(), &ctx);
        if extra {
            let c = b.token(token(0, 1, 2), "ab", &ctx);
            b.reduce(1, &mut vec![c, top], &Meta::default(), &ctx);
        }
        format!("{:?}", b.into_tape("ab", &rules, &symbols, top).materialize())
    };
    assert_eq!(run(false), run(true));
}

#[test]
fn the_root_does_not_change_what_a_handle_stands_for() {
    let (rules, symbols) = (rules(&["inner", "outer"]), names(&["A"]));
    let ctx = OutputContext { rules: &rules, symbols: &symbols };
    let build = |root: u32| -> ParseTree {
        let mut b = TapeBuilder::new();
        let a = b.token(token(0, 0, 1), "é", &ctx);
        let inner = b.reduce(0, &mut vec![a], &Meta::default(), &ctx);
        b.reduce(1, &mut vec![inner], &Meta::default(), &ctx);
        b.into_tape("é", &rules, &symbols, root).materialize()
    };
    let outer = only_tree(build(2));
    let inner = only_tree(build(1));
    assert_eq!((outer.data.as_str(), inner.data.as_str()), ("outer", "inner"));
    assert!(matches!(&outer.children[0], Child::Tree(t) if format!("{t:?}") == format!("{inner:?}")));
    assert!(matches!(build(0), ParseTree::Token(t) if t.value == "é"));
}

#[test]
fn a_child_may_be_appended_after_its_parent() {
    let (rules, symbols) = (rules(&["r"]), names(&["A"]));
    let ctx = OutputContext { rules: &rules, symbols: &symbols };
    let mut b = TapeBuilder::new();
    let top = b.reduce(0, &mut vec![1], &Meta::default(), &ctx);
    b.token(token(0, 0, 1), "a", &ctx);
    let tree = only_tree(b.into_tape("a", &rules, &symbols, top).materialize());
    assert!(matches!(&tree.children[0], Child::Token(t) if t.value == "a"));
}

#[test]
fn a_root_need_not_be_a_node() {
    let (rules, symbols) = (rules(&[]), names(&["A"]));
    let ctx = OutputContext { rules: &rules, symbols: &symbols };
    let mut b = TapeBuilder::new();
    let absent = b.placeholder(&ctx);
    assert!(matches!(
        b.into_tape("", &rules, &symbols, absent).materialize(),
        ParseTree::Absent
    ));
}

#[test]
fn any_root_index_makes_a_tape() {
    let (rules, symbols) = (rules(&[]), names(&[]));
    let tape = TapeBuilder::new().into_tape("x", &rules, &symbols, 7);
    assert_eq!(tape.root(), 7);
    assert!(tape.entries().is_empty());
}

#[test]
fn names_resolve_by_id() {
    let (rules, symbols) = (rules(&["first", "second"]), names(&["A", "B"]));
    let ctx = OutputContext { rules: &rules, symbols: &symbols };
    assert_eq!(symbols.name(SymbolId(1)), "B");
    assert_eq!(ctx.callback_name(0), "first");
    assert_eq!(ctx.callback_name(1), "second");
    assert_eq!(checked_pos(4_294_967_295), u32::MAX);
}
