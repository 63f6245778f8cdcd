use std::collections::BTreeMap;
use wiki2qid::dump::{decode_line, LineDecode, MalformedRecord};
use wiki2qid::output::{avro_int, join_records, PageRecord};
use wiki2qid::pages::load_titles;
use wiki2qid::pipeline::{build_table, TableError};
use wiki2qid::props::{apply_prop_tuples, load_qids};
use wiki2qid::redirects::resolve_redirects;
use wiki2qid::text::{has_prefix, parse_marked_u32, same_text};

fn page_row(id: u32, ns: u32, title: &str) -> String {
    format!("({id},{ns},'{title}',0,1,0.123,'20240101000000','20240101000000',77,120,'wikitext',NULL)")
}

fn page_dump(rows: &[String]) -> String {
    format!("-- MySQL dump\nINSERT INTO `page` VALUES {};\n-- end\n", rows.join(","))
}

fn sorted(mut records: Vec<PageRecord>) -> Vec<(String, u32, Option<u32>)> {
    records.sort_by(|a, b| a.title.cmp(&b.title));
    records.into_iter().map(|r| (r.title, r.pageid, r.qid)).collect()
}

fn run(pages: &str, props: &str, redirects: &str) -> Vec<(String, u32, Option<u32>)> {
    sorted(build_table(pages, props, redirects, false).unwrap())
}

fn paris_pages() -> String {
    page_dump(&[page_row(1, 0, "Paris"), page_row(2, 0, "Paree"), page_row(3, 0, "Unknown")])
}

const PARIS_PROPS: &str =
    "INSERT INTO `page_props` VALUES (1,'wikibase_item','Q90',NULL),(1,'page_image','Paris.jpg',NULL);\n";
const PARIS_REDIRECTS: &str = "INSERT INTO `redirect` VALUES (2,0,'Paris','','');\n";

#[test]
fn direct_property_gives_qid() {
    let out = run(&paris_pages(), PARIS_PROPS, PARIS_REDIRECTS);
    assert!(out.contains(&("Paris".to_string(), 1, Some(90))));
}

#[test]
fn redirect_takes_target_qid() {
    let out = run(&paris_pages(), PARIS_PROPS, PARIS_REDIRECTS);
    assert!(out.contains(&("Paree".to_string(), 2, Some(90))));
}

#[test]
fn page_without_property_or_redirect_has_no_qid() {
    let out = run(&paris_pages(), PARIS_PROPS, PARIS_REDIRECTS);
    assert!(out.contains(&("Unknown".to_string(), 3, None)));
}

#[test]
fn full_example_output() {
    let out = run(&paris_pages(), PARIS_PROPS, PARIS_REDIRECTS);
    assert_eq!(
        out,
        vec![
            ("Paree".to_string(), 2, Some(90)),
            ("Paris".to_string(), 1, Some(90)),
            ("Unknown".to_string(), 3, None),
        ]
    );
}

#[test]
fn unrecognized_lines_are_ignored() {
    let pages = format!(
        "INSERT INTO `pagelinks` VALUES (9,0,'Other',0,1,0.1,'x','y',1,2,'wikitext',NULL);\n/* header */\n{}",
        paris_pages()
    );
    let props = format!("SET NAMES utf8;\n{PARIS_PROPS}INSERT INTO `x` VALUES (2,'wikibase_item','Q5',NULL);\n");
    let redirects = format!("LOCK TABLES `redirect` WRITE;\n{PARIS_REDIRECTS}UNLOCK TABLES;\n");
    assert_eq!(run(&pages, &props, &redirects), run(&paris_pages(), PARIS_PROPS, PARIS_REDIRECTS));
}

#[test]
fn each_title_once_last_row_wins() {
    let pages = page_dump(&[page_row(1, 0, "Paris"), page_row(7, 0, "Paris"), page_row(3, 0, "Lyon")]);
    let out = run(&pages, "", "");
    assert_eq!(out, vec![("Lyon".to_string(), 3, None), ("Paris".to_string(), 7, None)]);
}

#[test]
fn other_namespace_is_filtered() {
    let pages = page_dump(&[page_row(1, 0, "Paris"), page_row(4, 1, "Paris"), page_row(5, 1, "Talk")]);
    let redirects = "INSERT INTO `redirect` VALUES (6,1,'Paris','',''),(5,1,'Paris','','');\n";
    let out = run(&pages, PARIS_PROPS, redirects);
    assert_eq!(out, vec![("Paris".to_string(), 1, Some(90))]);
}

#[test]
fn redirect_to_unmapped_redirect_stays_unresolved() {
    // 3 redirects to Unknown, which has no qid; 2 redirects to 3's title.
    let pages = page_dump(&[page_row(1, 0, "Paris"), page_row(2, 0, "A"), page_row(3, 0, "B"), page_row(4, 0, "Unknown")]);
    let redirects = "INSERT INTO `redirect` VALUES (2,0,'B','',''),(3,0,'Unknown','','');\n";
    let out = run(&pages, PARIS_PROPS, redirects);
    assert!(out.contains(&("A".to_string(), 2, None)));
    assert!(out.contains(&("B".to_string(), 3, None)));
}

#[test]
fn redirect_to_missing_title_is_skipped() {
    let redirects = "INSERT INTO `redirect` VALUES (3,0,'Nowhere','','');\n";
    let out = run(&paris_pages(), PARIS_PROPS, redirects);
    assert!(out.contains(&("Unknown".to_string(), 3, None)));
}

#[test]
fn redirect_overrides_direct_property() {
    let props = "INSERT INTO `page_props` VALUES (1,'wikibase_item','Q90',NULL),(2,'wikibase_item','Q5',NULL);\n";
    let out = run(&paris_pages(), props, PARIS_REDIRECTS);
    assert!(out.contains(&("Paree".to_string(), 2, Some(90))));
}

#[test]
fn runs_are_repeatable() {
    let a = run(&paris_pages(), PARIS_PROPS, PARIS_REDIRECTS);
    let b = run(&paris_pages(), PARIS_PROPS, PARIS_REDIRECTS);
    assert_eq!(a, b);
}

#[test]
fn titles_are_normalized_to_nfc() {
    let pages = page_dump(&[page_row(8, 0, "Cafe\u{301}")]);
    let out = run(&pages, "", "");
    assert_eq!(out, vec![("Caf\u{e9}".to_string(), 8, None)]);
}

#[test]
fn redirect_target_normalization_is_optional() {
    let pages = page_dump(&[page_row(1, 0, "Caf\u{e9}"), page_row(2, 0, "Coffeehouse")]);
    let props = "INSERT INTO `page_props` VALUES (1,'wikibase_item','Q30',NULL);\n";
    let redirects = "INSERT INTO `redirect` VALUES (2,0,'Cafe\u{301}','','');\n";
    let plain = sorted(build_table(&pages, props, redirects, false).unwrap());
    assert!(plain.contains(&("Coffeehouse".to_string(), 2, None)));
    let normalized = sorted(build_table(&pages, props, redirects, true).unwrap());
    assert!(normalized.contains(&("Coffeehouse".to_string(), 2, Some(30))));
}

#[test]
fn escaped_quote_in_title() {
    let pages = page_dump(&[page_row(5, 0, "O\\'Brien")]);
    let out = run(&pages, "", "");
    assert_eq!(out, vec![("O'Brien".to_string(), 5, None)]);
}

#[test]
fn incomplete_tuple_is_malformed() {
    let pages = "-- head\nINSERT INTO `page` VALUES (1,0,'Paris',0,1);\n";
    assert!(matches!(build_table(pages, "", "", false), Err(TableError::Pages(1))));
}

#[test]
fn bad_integer_is_malformed() {
    let props = "INSERT INTO `page_props` VALUES (1,'wikibase_item','Qx',NULL);\n";
    assert!(matches!(build_table(&paris_pages(), props, "", false), Err(TableError::Props(0))));
    let redirects = "\n\nINSERT INTO `redirect` VALUES (z,0,'Paris','','');\n";
    assert!(matches!(
        build_table(&paris_pages(), PARIS_PROPS, redirects, false),
        Err(TableError::Redirects(2))
    ));
}

#[test]
fn bare_prefix_is_malformed() {
    assert!(matches!(load_titles("INSERT INTO `page` VALUES "), Err(MalformedRecord { line: 0 })));
}

#[test]
fn bad_id_in_other_namespace_is_not_read() {
    let pages = page_dump(&[page_row(1, 0, "Paris")]) + "INSERT INTO `page` VALUES (xx,1,'T',0,1,0.1,'a','b',1,2,'c',NULL);\n";
    assert_eq!(run(&pages, "", ""), vec![("Paris".to_string(), 1, None)]);
}

#[test]
fn loaders_compose_by_hand() {
    let titles = load_titles(&paris_pages()).unwrap();
    let qids = load_qids(PARIS_PROPS).unwrap();
    let mut expected = BTreeMap::new();
    expected.insert(1u32, 90u32);
    assert_eq!(qids, expected);
    let resolved = resolve_redirects(PARIS_REDIRECTS, qids, &titles, false).unwrap();
    expected.insert(2, 90);
    assert_eq!(resolved, expected);
    assert_eq!(sorted(join_records(&titles, &resolved)).len(), 3);
}

#[test]
fn empty_dumps_give_no_records() {
    assert_eq!(run("", "", ""), vec![]);
}

#[test]
fn decode_line_cases() {
    let prefix = "INSERT INTO `redirect` VALUES ";
    assert!(matches!(decode_line("SELECT 1;", prefix, 5), LineDecode::Skipped));
    assert!(matches!(decode_line("INSERT INTO `redirect` VALUES (1,0,'A','');", prefix, 5), LineDecode::Malformed));
    match decode_line("INSERT INTO `redirect` VALUES (1,0,'A,B','',''),(2,0,'C','x','y');", prefix, 5) {
        LineDecode::Fields(f) => assert_eq!(
            f,
            vec!["(1", "0", "A,B", "", ")", "(2", "0", "C", "x", "y)"]
                .into_iter()
                .map(String::from)
                .collect::<Vec<_>>()
        ),
        _ => panic!("expected fields"),
    }
}

#[test]
fn marked_integers() {
    assert_eq!(parse_marked_u32("(123"), Some(123));
    assert_eq!(parse_marked_u32("Q90"), Some(90));
    assert_eq!(parse_marked_u32("(+7"), Some(7));
    assert_eq!(parse_marked_u32("(4294967295"), Some(4294967295));
    assert_eq!(parse_marked_u32("(4294967296"), None);
    assert_eq!(parse_marked_u32("("), None);
    assert_eq!(parse_marked_u32(""), None);
    assert_eq!(parse_marked_u32("(+"), None);
    assert_eq!(parse_marked_u32("(12a"), None);
    assert_eq!(parse_marked_u32("(-1"), None);
}

#[test]
fn text_helpers() {
    assert!(has_prefix("INSERT INTO x", "INSERT"));
    assert!(!has_prefix("INS", "INSERT"));
    assert!(!has_prefix("INSERTED", "INSERX"));
    assert!(same_text("0", "0"));
    assert!(!same_text("0", "00"));
    assert!(!same_text("1", "0"));
}

#[test]
fn property_rows_from_given_fields() {
    let fields: Vec<String> = vec!["(5", "wikibase_item", "Q42", "NULL)", "(6", "page_image", "x.jpg", "NULL)"]
        .into_iter()
        .map(String::from)
        .collect();
    let mut qids = BTreeMap::new();
    assert!(apply_prop_tuples(&mut qids, &fields));
    let mut expected = BTreeMap::new();
    expected.insert(5u32, 42u32);
    assert_eq!(qids, expected);
    let bad: Vec<String> = vec!["5", "wikibase_item", "Q", "NULL)"].into_iter().map(String::from).collect();
    assert!(!apply_prop_tuples(&mut qids, &bad));
}

#[test]
fn redirect_chain_follows_one_hop_in_dump_order() {
    // Paree redirects to Paris (mapped), then Parigi redirects to Paree,
    // which only got its id from a redirect: Parigi stays unresolved.
    let pages = page_dump(&[page_row(1, 0, "Paris"), page_row(2, 0, "Paree"), page_row(3, 0, "Parigi")]);
    let redirects = "INSERT INTO `redirect` VALUES (2,0,'Paris','',''),(3,0,'Paree','','');\n";
    let out = run(&pages, PARIS_PROPS, redirects);
    assert_eq!(
        out,
        vec![
            ("Paree".to_string(), 2, Some(90)),
            ("Parigi".to_string(), 3, None),
            ("Paris".to_string(), 1, Some(90)),
        ]
    );
}

#[test]
fn redirect_chain_keeps_direct_id_of_source() {
    let pages = page_dump(&[page_row(1, 0, "Paris"), page_row(2, 0, "Paree"), page_row(3, 0, "Parigi")]);
    let props = "INSERT INTO `page_props` VALUES (1,'wikibase_item','Q90',NULL),(3,'wikibase_item','Q55',NULL);\n";
    let redirects = "INSERT INTO `redirect` VALUES (2,0,'Paris','',''),(3,0,'Paree','','');\n";
    let out = run(&pages, props, redirects);
    assert!(out.contains(&("Parigi".to_string(), 3, Some(55))));
    assert!(out.contains(&("Paree".to_string(), 2, Some(90))));
}

#[test]
fn output_ints_are_twos_complement() {
    assert_eq!(avro_int(0), 0);
    assert_eq!(avro_int(90), 90);
    assert_eq!(avro_int(2147483647), 2147483647);
    assert_eq!(avro_int(2147483648), i32::MIN);
    assert_eq!(avro_int(4294967295), -1);
}
