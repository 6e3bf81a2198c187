use ids::io::ids_split_var;
use ids::io::parse_ids_line;
use ids::load;
use ids::query;
use ids::VariantTable;
use ids::IdsFileList;
use ids::add_ids_file;
use ids::set_ids_file_list;

fn strings(v: &[&str]) -> Vec<String> {
    v.iter().map(|s| s.to_string()).collect()
}

#[test]
fn split_var_tag_list() {
    let ps = ids_split_var("木(a,b)");
    assert_eq!(ps.len(), 2);
    assert_eq!(ps[0], ("a".to_string(), "木".to_string()));
    assert_eq!(ps[1], ("b".to_string(), "木".to_string()));
}

#[test]
fn split_var_plain() {
    let ps = ids_split_var("hs");
    assert_eq!(ps, vec![("".to_string(), "hs".to_string())]);
}

#[test]
fn split_var_hash_parenthesis_is_data() {
    let ps = ids_split_var("木#(q)");
    assert_eq!(ps, vec![("".to_string(), "木#(q)".to_string())]);
}

#[test]
fn split_var_unmatched_parenthesis() {
    let ps = ids_split_var("木q)");
    assert_eq!(ps, vec![("".to_string(), "木q)".to_string())]);
}

#[test]
fn line_comment_is_skipped() {
    assert!(parse_ids_line("*note\tx").is_none());
}

#[test]
fn line_needs_two_fields() {
    assert!(parse_ids_line("木").is_none());
}

#[test]
fn line_needs_single_character() {
    assert!(parse_ids_line("木木\thh").is_none());
    assert!(parse_ids_line("\thh").is_none());
}

#[test]
fn line_splits_segments_and_tags() {
    let (ch, ps) = parse_ids_line("戊\tA(a);B").unwrap_or_else(|| panic!("line must parse"));
    assert_eq!(ch, '戊');
    assert_eq!(
        ps,
        vec![("a".to_string(), "A".to_string()), ("".to_string(), "B".to_string())],
    );
}

#[test]
fn query_single_entry_ignores_preference() {
    let table = load(&strings(&["乙\thh"]));
    let r = query(&table, '乙', &strings(&[]));
    assert_eq!(r, Some(("".to_string(), "hh".to_string(), false)));
    let r2 = query(&table, '乙', &strings(&["zz", "yy"]));
    assert_eq!(r2, Some(("".to_string(), "hh".to_string(), false)));
}

#[test]
fn query_prefers_listed_tags_in_order() {
    let table = load(&strings(&["甲\tA(a);B(b)"]));
    let r = query(&table, '甲', &strings(&["b", "a"]));
    assert_eq!(r, Some(("b".to_string(), "B".to_string(), false)));
}

#[test]
fn query_falls_back_to_default_tag() {
    let table = load(&strings(&["甲\tA(a);B(b);C"]));
    let r = query(&table, '甲', &strings(&["c"]));
    assert_eq!(r, Some(("".to_string(), "C".to_string(), true)));
}

#[test]
fn query_falls_back_to_first_pair() {
    let table = load(&strings(&["甲\tA(a);B(b)"]));
    let r = query(&table, '甲', &strings(&["c"]));
    assert_eq!(r, Some(("a".to_string(), "A".to_string(), true)));
}

#[test]
fn query_unknown_character() {
    let table = load(&strings(&["甲\tA(a)"]));
    assert_eq!(query(&table, '癸', &strings(&[])), None);
}

#[test]
fn later_line_wins_on_tag_collision() {
    let table = load(&strings(&["丙\tA(a)", "丙\tB(a);C(c)"]));
    let r = query(&table, '丙', &strings(&["a"]));
    assert_eq!(r, Some(("a".to_string(), "B".to_string(), false)));
}

#[test]
fn insert_builds_entries() {
    let mut table = VariantTable::new();
    table.insert('丁', "x".to_string(), "hh".to_string());
    table.insert('丁', "x".to_string(), "pp".to_string());
    assert_eq!(table.entries.len(), 1);
    assert_eq!(table.entries[0].pairs.len(), 1);
    assert_eq!(table.entries[0].pairs[0].raw, "pp");
}

#[test]
fn file_list_configuration() {
    let mut fl = IdsFileList::new();
    assert_eq!(fl.files, vec!["./ids/ids_lv0.txt".to_string()]);
    set_ids_file_list(&mut fl, strings(&["a.txt", "b.txt"]));
    assert_eq!(fl.files, strings(&["a.txt", "b.txt"]));
    add_ids_file(&mut fl, "c.txt".to_string());
    assert_eq!(fl.files, strings(&["a.txt", "b.txt", "c.txt"]));
}
