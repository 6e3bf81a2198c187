use ids::create_node;
use ids::create_tree;
use ids::extend_node;
use ids::extend_var_list;
use ids::load;
use ids::IDSError;
use ids::IDSExpr;
use ids::IDSParser;

fn strings(v: &[&str]) -> Vec<String> {
    v.iter().map(|s| s.to_string()).collect()
}

#[test]
fn expand_example_tree() {
    let table = load(&strings(&["木\t⿻十八", "十\ths", "八\tpn"]));
    let tree = create_tree(&table, '木', &strings(&[])).unwrap_or_else(
        |_| panic!("the example must expand"),
    );
    assert_eq!(tree.root.ideographic, Some('木'));
    match &tree.root.subtree {
        IDSExpr::BinExpr { op, arg1, arg2, .. } => {
            assert_eq!(*op, '⿻');
            assert_eq!(arg1.ideographic, Some('十'));
            assert_eq!(arg1.stroke_seq, Some("hs".to_string()));
            assert!(matches!(arg1.subtree, IDSExpr::Null));
            assert_eq!(arg2.ideographic, Some('八'));
            assert_eq!(arg2.stroke_seq, Some("pn".to_string()));
        },
        _ => panic!("the example root is a binary expression"),
    }
    assert_eq!(
        tree.to_string_tree(),
        "'木' \n* ⿻\t木 \n    * \t十 hs \n    * \t八 pn \n",
    );
    assert_eq!(tree.root.to_string_simp(2), "⿻十八");
    assert_eq!(tree.root.to_string_simp(1), "木");
}

#[test]
fn stroke_entry_expands_in_one_step() {
    let table = load(&strings(&["十\ths"]));
    let n = create_node(&table, '十', &strings(&["v"])).unwrap_or_else(
        |_| panic!("a stroke entry must expand"),
    );
    assert_eq!(n.ideographic, Some('十'));
    assert_eq!(n.stroke_seq, Some("hs".to_string()));
    assert_eq!(n.glyph_variant, "");
    assert!(matches!(n.subtree, IDSExpr::Null));
}

#[test]
fn variant_annotation_moves_to_front() {
    let table = load(&strings(&["丁\t⿰戊(v)己", "戊\taa;bb(v)", "己\tcc"]));
    let n = create_node(&table, '丁', &strings(&[])).unwrap_or_else(
        |_| panic!("the annotated tree must expand"),
    );
    match &n.subtree {
        IDSExpr::BinExpr { arg1, arg2, .. } => {
            assert_eq!(arg1.ideographic, Some('戊'));
            assert_eq!(arg1.glyph_variant, "v");
            assert_eq!(arg1.stroke_seq, Some("bb".to_string()));
            assert_eq!(arg2.stroke_seq, Some("cc".to_string()));
        },
        _ => panic!("expected a binary expression"),
    }
}

#[test]
fn inherited_preference_reaches_children() {
    let table = load(&strings(&["庚\t⿰戊己", "戊\taa;bb(v)", "己\tcc"]));
    let n = create_node(&table, '庚', &strings(&["v"])).unwrap_or_else(
        |_| panic!("the tree must expand"),
    );
    match &n.subtree {
        IDSExpr::BinExpr { arg1, .. } => {
            assert_eq!(arg1.glyph_variant, "v");
            assert_eq!(arg1.stroke_seq, Some("bb".to_string()));
        },
        _ => panic!("expected a binary expression"),
    }
}

#[test]
fn missing_root_reports_not_found() {
    let table = load(&strings(&["甲\tA(a)"]));
    match create_node(&table, '癸', &strings(&[])) {
        Err(IDSError::LookupNotFound { ch }) => assert_eq!(ch, '癸'),
        _ => panic!("a missing root must fail with its character"),
    }
}

#[test]
fn missing_child_aborts_whole_expansion() {
    let table = load(&strings(&["庚\t⿰辛壬", "辛\taa"]));
    match create_node(&table, '庚', &strings(&[])) {
        Err(IDSError::LookupNotFound { ch }) => assert_eq!(ch, '壬'),
        _ => panic!("a missing child must fail with that child's character"),
    }
}

#[test]
fn bad_description_reports_grammar_error() {
    let table = load(&strings(&["庚\t⿰辛", "辛\taa"]));
    match create_node(&table, '庚', &strings(&[])) {
        Err(IDSError::GrammarError { fragment }) => assert_eq!(fragment, "⿰辛"),
        _ => panic!("an ungrammatical entry must fail with its fragment"),
    }
}

#[test]
fn cyclic_table_reports_depth_exceeded() {
    let table = load(&strings(&["子\t⿰子丑", "丑\tqq"]));
    match create_node(&table, '子', &strings(&[])) {
        Err(IDSError::DepthExceeded) => {},
        _ => panic!("a self-referential entry must hit the recursion guard"),
    }
}

#[test]
fn extend_node_expands_immediate_children() {
    let table = load(&strings(&["十\ths", "八\tpn"]));
    let mut n = IDSParser::parse("⿻十八").unwrap_or_else(|_| panic!("must parse"));
    extend_node(&mut n, &table, &strings(&[])).unwrap_or_else(
        |_| panic!("extension must succeed"),
    );
    match &n.subtree {
        IDSExpr::BinExpr { arg1, arg2, .. } => {
            assert_eq!(arg1.stroke_seq, Some("hs".to_string()));
            assert_eq!(arg2.stroke_seq, Some("pn".to_string()));
        },
        _ => panic!("expected a binary expression"),
    }
}

#[test]
fn extend_var_list_moves_tag_to_front() {
    let l = strings(&["a", "v", "b", "v"]);
    let r = extend_var_list(&l, &"v".to_string());
    assert_eq!(r, strings(&["v", "a", "b"]));
    let r2 = extend_var_list(&strings(&[]), &"w".to_string());
    assert_eq!(r2, strings(&["w"]));
}

#[test]
fn all_tree() {
    let lines = strings(&[
        "木\t⿻十八",
        "十\ths",
        "八\tpn",
        "丁\t⿰戊(v)己",
        "戊\taa;bb(v)",
        "己\tcc",
        "林\t⿰木木",
    ]);
    let table = load(&lines);
    let total = table.entries.len();
    let mut i: usize = 0;
    while i < total {
        println!("===== {:6} / {:6} ===== ", i + 1, total);
        let ch = table.entries[i].ch;
        let mut j: usize = 0;
        while j < table.entries[i].pairs.len() {
            let var = table.entries[i].pairs[j].tag.clone();
            let s = table.entries[i].pairs[j].raw.clone();
            println!("==> {}", s);
            match create_tree(&table, ch, &vec![var]) {
                Ok(tree) => println!("{}", tree.to_string_tree()),
                Err(_) => panic!("every recorded character must expand"),
            }
            println!();
            j += 1;
        }
        println!();
        i += 1;
    }
}

#[test]
fn simp_budget_decays_but_never_reaches_zero() {
    let table = load(&strings(&["林\t⿰木木", "木\t⿻十八", "十\ths", "八\tpn"]));
    let tree = create_tree(&table, '林', &strings(&[])).unwrap_or_else(
        |_| panic!("the nested tree must expand"),
    );
    assert_eq!(tree.root.to_string_simp(1), "林");
    assert_eq!(tree.root.to_string_simp(2), "⿰木木");
    assert_eq!(tree.root.to_string_simp(3), "⿰⿻十八⿻十八");
    assert_eq!(tree.root.to_string_simp(4), "⿰⿻⿻");
}
