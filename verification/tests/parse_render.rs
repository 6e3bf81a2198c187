use ids::IDSExpr;
use ids::IDSNode;
use ids::IDSParser;
use ids::IDSError;

fn atom_leaf(c: char) -> IDSNode {
    IDSNode {
        ideographic: Some(c),
        stroke_seq: None,
        glyph_hint: String::new(),
        subtree: IDSExpr::Null,
        glyph_variant: String::new(),
    }
}

#[test]
fn parse_atom() {
    let n = IDSParser::parse("木").unwrap_or_else(|_| panic!("atom must parse"));
    assert_eq!(n.ideographic, Some('木'));
    assert!(n.stroke_seq.is_none());
    assert_eq!(n.glyph_variant, "");
    assert!(matches!(n.subtree, IDSExpr::Null));
}

#[test]
fn parse_atom_with_variant() {
    let n = IDSParser::parse("米(x)").unwrap_or_else(|_| panic!("annotated atom must parse"));
    assert_eq!(n.ideographic, Some('米'));
    assert_eq!(n.glyph_variant, "x");
    assert!(matches!(n.subtree, IDSExpr::Null));
}

#[test]
fn parse_stroke_with_hint() {
    let n = IDSParser::parse("{top}ab").unwrap_or_else(|_| panic!("stroke must parse"));
    assert_eq!(n.ideographic, None);
    assert_eq!(n.stroke_seq, Some("ab".to_string()));
    assert_eq!(n.glyph_hint, "top");
}

#[test]
fn parse_unary() {
    let n = IDSParser::parse("〾日").unwrap_or_else(|_| panic!("unary must parse"));
    match n.subtree {
        IDSExpr::UnaryExpr { op, arg1 } => {
            assert_eq!(op, '〾');
            assert_eq!(arg1.ideographic, Some('日'));
        },
        _ => panic!("expected a unary expression"),
    }
}

#[test]
fn parse_binary_with_overlay() {
    let n = IDSParser::parse("⿰[k]日月").unwrap_or_else(|_| panic!("binary must parse"));
    match n.subtree {
        IDSExpr::BinExpr { op, arg1, arg2, op_arg } => {
            assert_eq!(op, '⿰');
            assert_eq!(op_arg, Some("k".to_string()));
            assert_eq!(arg1.ideographic, Some('日'));
            assert_eq!(arg2.ideographic, Some('月'));
        },
        _ => panic!("expected a binary expression"),
    }
}

#[test]
fn parse_binary_with_leading_hint() {
    let n = IDSParser::parse("{h}⿱日月").unwrap_or_else(|_| panic!("binary must parse"));
    assert_eq!(n.glyph_hint, "h");
    assert!(matches!(n.subtree, IDSExpr::BinExpr { .. }));
}

#[test]
fn parse_ternary() {
    let n = IDSParser::parse("⿲一丨一").unwrap_or_else(|_| panic!("ternary must parse"));
    match n.subtree {
        IDSExpr::TerExpr { op, arg1, arg2, arg3 } => {
            assert_eq!(op, '⿲');
            assert_eq!(arg1.ideographic, Some('一'));
            assert_eq!(arg2.ideographic, Some('丨'));
            assert_eq!(arg3.ideographic, Some('一'));
        },
        _ => panic!("expected a ternary expression"),
    }
}

#[test]
fn parse_nested() {
    let n = IDSParser::parse("⿰⿱日月水").unwrap_or_else(|_| panic!("nested must parse"));
    match n.subtree {
        IDSExpr::BinExpr { arg1, arg2, .. } => {
            assert!(matches!(arg1.subtree, IDSExpr::BinExpr { .. }));
            assert_eq!(arg2.ideographic, Some('水'));
        },
        _ => panic!("expected a binary expression"),
    }
}

#[test]
fn parse_rejects_empty() {
    match IDSParser::parse("") {
        Err(IDSError::GrammarError { fragment }) => assert_eq!(fragment, ""),
        _ => panic!("the empty string is not grammatical"),
    }
}

#[test]
fn parse_rejects_trailing_text() {
    match IDSParser::parse("日月") {
        Err(IDSError::GrammarError { fragment }) => assert_eq!(fragment, "月"),
        _ => panic!("two expressions in a row are not grammatical"),
    }
}

#[test]
fn parse_rejects_missing_child() {
    match IDSParser::parse("⿰日") {
        Err(IDSError::GrammarError { fragment }) => assert_eq!(fragment, "⿰日"),
        _ => panic!("a binary operator needs two children"),
    }
}

#[test]
fn parse_rejects_stray_bracket() {
    assert!(matches!(IDSParser::parse("(x)"), Err(IDSError::GrammarError { .. })));
}

#[test]
fn simp_collapses_at_level_one() {
    let n = IDSParser::parse("⿻十八").unwrap_or_else(|_| panic!("must parse"));
    assert_eq!(n.to_string_simp(2), "⿻十八");
    assert_eq!(n.to_string_simp(0), "⿻");
}

#[test]
fn tree_render_binary_annotations() {
    let node = IDSNode {
        ideographic: Some('甲'),
        stroke_seq: None,
        glyph_hint: "h1".to_string(),
        subtree: IDSExpr::BinExpr {
            op: '⿰',
            arg1: Box::new(atom_leaf('乙')),
            arg2: Box::new(atom_leaf('丙')),
            op_arg: Some("ov".to_string()),
        },
        glyph_variant: "vt".to_string(),
    };
    let text = node.fmt_tree_r(0);
    assert_eq!(text, "* ⿰[ov]\t甲(vt) Hint: {h1}\n    * \t乙 \n    * \t丙 \n");
    assert_eq!(text.lines().count(), 3);
}

#[test]
fn tree_render_unary_arity() {
    let node = IDSNode {
        ideographic: None,
        stroke_seq: None,
        glyph_hint: String::new(),
        subtree: IDSExpr::UnaryExpr { op: '〾', arg1: Box::new(atom_leaf('乙')) },
        glyph_variant: String::new(),
    };
    let text = node.fmt_tree_r(0);
    assert_eq!(text, "* 〾\t\n    * \t乙 \n");
    assert_eq!(text.lines().count(), 2);
}

#[test]
fn tree_render_ternary_arity() {
    let node = IDSNode {
        ideographic: None,
        stroke_seq: None,
        glyph_hint: String::new(),
        subtree: IDSExpr::TerExpr {
            op: '⿳',
            arg1: Box::new(atom_leaf('一')),
            arg2: Box::new(atom_leaf('丨')),
            arg3: Box::new(atom_leaf('乙')),
        },
        glyph_variant: String::new(),
    };
    let text = node.fmt_tree_r(0);
    assert_eq!(text, "* ⿳\t\n    * \t一 \n    * \t丨 \n    * \t乙 \n");
    assert_eq!(text.lines().count(), 4);
}

#[test]
fn tree_render_stroke_leaf() {
    let node = IDSNode {
        ideographic: None,
        stroke_seq: Some("hs".to_string()),
        glyph_hint: "deep".to_string(),
        subtree: IDSExpr::Null,
        glyph_variant: String::new(),
    };
    assert_eq!(node.fmt_tree_r(1), "    * \ths Hint: {deep}\n");
}

#[test]
fn parse_rejects_hint_before_unary() {
    assert!(matches!(IDSParser::parse("{h}〾日"), Err(IDSError::GrammarError { .. })));
}
