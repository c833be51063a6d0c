use wmach::tag::{AppendantBuilder, BinRuleStyle, Program, RuleStyle, TagErr};

#[test]
fn it_works() {
    assert_eq!(2 + 2, 4);
}

fn sym(s: &str) -> String {
    s.to_owned()
}

#[test]
fn construct_rejects_small_deletion_number() {
    let r = Program::from_components(0, Vec::new(), vec![sym("a"), sym("b")]);
    assert!(matches!(r, Err(TagErr::InvalidDeletionNumber { deletion_number: 0 })));
    let r = Program::from_components(1, Vec::new(), vec![sym("a"), sym("b")]);
    assert!(matches!(r, Err(TagErr::InvalidDeletionNumber { deletion_number: 1 })));
}

#[test]
fn construct_rejects_short_queue() {
    let r = Program::from_components(2, Vec::new(), vec![sym("a")]);
    assert!(matches!(r, Err(TagErr::InvalidQueueLength { queue_length: 1 })));
    let rules = vec![(sym("a"), RuleStyle::Pure(vec![sym("b")]))];
    let r = Program::from_components(3, rules, vec![sym("a"), sym("b")]);
    assert!(matches!(r, Err(TagErr::InvalidQueueLength { queue_length: 2 })));
}

#[test]
fn construct_accepts_valid_components() {
    let rules = vec![(sym("a"), RuleStyle::Pure(vec![sym("b")]))];
    let p = Program::from_components(2, rules, vec![sym("a"), sym("b")]).unwrap();
    assert_eq!(p.deletion_number(), 2);
    assert_eq!(p.queue().len(), 2);
    assert_eq!(p.rules().len(), 1);
}

#[test]
fn construct_rejects_duplicate_start_symbol() {
    let rules = vec![
        (sym("a"), RuleStyle::Pure(vec![sym("b")])),
        (sym("a"), RuleStyle::Pure(vec![sym("c")])),
    ];
    let r = Program::from_components(2, rules, vec![sym("a"), sym("b")]);
    match r {
        Err(TagErr::DuplicateStartSymbol { start_symbol }) => assert_eq!(start_symbol, "a"),
        other => panic!("expected a duplicate start symbol error, got {:?}", other),
    }
}

#[test]
fn builder_shapes() {
    let pure = AppendantBuilder::pure_rule().with_appendant(vec![sym("p")]).finalize();
    assert_eq!(pure, RuleStyle::Pure(vec![sym("p")]));

    let input = AppendantBuilder::input_rule()
        .with_false_appendant(vec![sym("f")])
        .with_true_appendant(vec![sym("t")])
        .finalize();
    assert_eq!(input, RuleStyle::Input(vec![sym("f")], vec![sym("t")]));

    let output = AppendantBuilder::output_rule()
        .with_output(true)
        .with_appendant(vec![sym("o")])
        .finalize();
    assert_eq!(output, RuleStyle::Output(vec![sym("o")], true));
}

#[test]
fn bin_rule_style_codes() {
    assert_eq!(BinRuleStyle::Output.code(), 0);
    assert_eq!(BinRuleStyle::Input.code(), 1);
    assert_eq!(BinRuleStyle::Pure.code(), 2);
}

#[test]
fn byte_boundary_is_minimal_width() {
    assert_eq!(Program::calculate_byte_boundary(0), 0);
    assert_eq!(Program::calculate_byte_boundary(1), 1);
    assert_eq!(Program::calculate_byte_boundary(2), 1);
    assert_eq!(Program::calculate_byte_boundary(256), 1);
    assert_eq!(Program::calculate_byte_boundary(257), 2);
    assert_eq!(Program::calculate_byte_boundary(65536), 2);
    assert_eq!(Program::calculate_byte_boundary(65537), 3);
}

#[test]
fn symbol_map_assigns_dense_ids_in_first_seen_order() {
    let rules = vec![
        (sym("b"), RuleStyle::Pure(vec![sym("a")])),
        (sym("a"), RuleStyle::Pure(vec![sym("c")])),
    ];
    let p = Program::from_components(2, rules, vec![sym("a"), sym("b"), sym("d")]).unwrap();
    let map = p.make_symbol_map();
    let expected = [("b", 0u64), ("a", 1), ("c", 2), ("d", 3)];
    assert_eq!(map.len(), expected.len());
    for (entry, (name, id)) in map.iter().zip(expected.iter()) {
        assert_eq!(entry.0, *name);
        assert_eq!(entry.1, *id);
    }
}

#[test]
fn assemble_emits_exact_bytes() {
    let rules = vec![(sym("a"), RuleStyle::Pure(vec![sym("b")]))];
    let p = Program::from_components(2, rules, vec![sym("a"), sym("b")]).unwrap();
    let (map, bin) = p.assemble().unwrap();
    assert_eq!(map.len(), 2);
    let expected: Vec<u8> = vec![
        // header: rule_count u64, symbol_width u32, queue_byte_len u32, deletion u32
        1, 0, 0, 0, 0, 0, 0, 0, 1, 0, 0, 0, 2, 0, 0, 0, 2, 0, 0, 0,
        // rule: style, appendant byte length u16, start id, appendant ids
        2, 1, 0, 0, 1,
        // queue ids
        0, 1,
    ];
    assert_eq!(bin, expected);
}

#[test]
fn assemble_emits_input_and_output_records() {
    let rules = vec![
        (sym("i"), RuleStyle::Input(vec![sym("a")], vec![sym("b"), sym("a")])),
        (sym("o"), RuleStyle::Output(vec![sym("a")], true)),
    ];
    let p = Program::from_components(2, rules, vec![sym("a"), sym("a")]).unwrap();
    let (_, bin) = p.assemble().unwrap();
    // symbols in first-seen order: i=0, o=1, a=2, b=3; width 1
    let expected: Vec<u8> = vec![
        2, 0, 0, 0, 0, 0, 0, 0, 1, 0, 0, 0, 2, 0, 0, 0, 2, 0, 0, 0,
        // input rule: style, false len, true len, start, false appendant, true appendant
        1, 1, 0, 2, 0, 0, 2, 3, 2,
        // output rule: style, len, start, appendant, output bit
        0, 1, 0, 1, 2, 1,
        // queue
        2, 2,
    ];
    assert_eq!(bin, expected);
}

#[test]
fn assemble_of_zero_symbols_is_empty_program() {
    let p = Program { deletion_number: 2, rules: Vec::new(), queue: Vec::new() };
    let r = p.assemble();
    assert!(matches!(r, Err(TagErr::EmptyProgram)));
}

#[test]
fn header_queue_byte_len_recovers_queue_len() {
    let rules = vec![(sym("start"), RuleStyle::Pure(vec![sym("x"), sym("y")]))];
    let queue = vec![sym("x"), sym("y"), sym("start")];
    let p = Program::from_components(2, rules, queue).unwrap();
    let (map, bin) = p.assemble().unwrap();
    let width = Program::calculate_byte_boundary(map.len());
    let queue_byte_len =
        u32::from_le_bytes([bin[12], bin[13], bin[14], bin[15]]) as usize;
    assert_eq!(queue_byte_len / width, 3);
}

#[test]
fn render_dumps_canonical_text() {
    let rules = vec![
        (sym("a"), RuleStyle::Pure(vec![sym("b"), sym("c")])),
        (sym("i"), RuleStyle::Input(vec![sym("b")], vec![sym("c")])),
        (sym("o"), RuleStyle::Output(vec![sym("b")], true)),
    ];
    let p = Program::from_components(2, rules, vec![sym("a"), sym("b")]).unwrap();
    let text = p.render();
    let expected = "deletion_number {\n    2\n}\n\nrules {\n\n\
                    a -> b c \n\
                    i -> { b  ; c  } \n\
                    o -> 1: b \n\
                    \n}\n\n\
                    queue {\n    a b \n}\n";
    assert_eq!(text, expected);
}
