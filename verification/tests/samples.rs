use faster_pest::generate::gen;
use faster_pest::pattern_outer::Rule;
use faster_pest::pattern_rule_method::parse_RuleVariant;
use faster_pest::rules::{compile_rules, get_all_rules};
use faster_pest::rust_generator::RustGenerator;

fn parsed(text: &str) -> Vec<pest_meta::optimizer::OptimizedRule> {
    pest_meta::parse_and_optimize(text).expect("a grammar").1
}

const CSV: &str = "field = { (ASCII_DIGIT | \".\" | \"-\")+ }\nrecord = { field ~ (\",\" ~ field)* }\nfile = { SOI ~ (record ~ (\"\\r\\n\" | \"\\n\"))* ~ EOI }";

const NUMBERS: &str = "65279,1179403647,1463895090\n3.1415927,2.7182817,1.618034\n-40,-273.15\n13,42\n65537\n";

const PO: &str = "WHITESPACE = _{ \" \" }\nlinecontent = { ASCII_ALPHANUMERIC* }\nline = { \"\\\"\" ~ linecontent ~ \"\\\"\" ~ NEWLINE }\nmsgid = { \"msgid \" ~ line ~ line* }\nmsgstr = { \"msgstr \" ~ line ~ line* }\nentry = { msgid ~ msgstr }\nfile = { SOI ~ NEWLINE* ~ (entry ~ NEWLINE*)* ~ EOI }";

#[test]
fn main() {
    let grammar = compile_rules(&parsed(CSV)).expect("supported");
    let file_rule = Rule(grammar.find("file").expect("the rule"));
    let record_rule = Rule(grammar.find("record").expect("the rule"));
    let file = grammar
        .parse(file_rule, NUMBERS)
        .expect("unsuccessful parse")
        .next()
        .unwrap();

    let mut field_sum: f64 = 0.0;
    let mut record_count: u64 = 0;

    let mut records = file.into_inner();
    while let Some(record) = records.next() {
        if record.as_rule() == record_rule {
            record_count += 1;
            let mut fields = record.into_inner();
            while let Some(field) = fields.next() {
                field_sum += field.as_str().unwrap().parse::<f64>().unwrap();
            }
        } else {
            println!("Unexpected {:?}", record.as_rule());
        }
    }

    println!("Sum of fields: {}", field_sum);
    println!("Number of records: {}", record_count);
    assert_eq!(record_count, 5);
    assert!((field_sum - 2643429302.327908).abs() < 1e-6);
}

#[test]
fn test2_test() {
    let input = r#"msgid "test"
    "test2"
msgstr   "test"

msgid "apricot"
msgstr ""
"test"
"#;
    let grammar = compile_rules(&parsed(PO)).expect("supported");
    let file = grammar.find("file").expect("the rule");
    let entry = grammar.find("entry").expect("the rule");
    match parse_RuleVariant(&grammar, file, input) {
        Ok(list) => {
            let root = list.root().expect("a root");
            assert_eq!(root.as_str(), Some(input));
            let mut entries = root.children();
            let first = entries.next().expect("an entry");
            assert_eq!(first.as_rule(), Rule(entry));
            let mut parts = first.children();
            let msgid = parts.next().expect("msgid");
            assert_eq!(msgid.as_str(), Some("msgid \"test\"\n    \"test2\"\n"));
            assert_eq!(msgid.children_count(), 4);
            let msgstr = parts.next().expect("msgstr");
            assert_eq!(msgstr.as_str(), Some("msgstr   \"test\"\n"));
            assert!(parts.next().is_none());
            let second = entries.next().expect("an entry");
            assert_eq!(second.as_str(), Some("msgid \"apricot\"\nmsgstr \"\"\n\"test\"\n"));
            assert!(entries.next().is_none());
        }
        Err(e) => panic!("{}", e.render(input)),
    }
}

#[test]
fn lib_test() {
    let rules = get_all_rules(vec![parsed(PO)]);
    println!("{:#?}", rules);
    let full_code = gen::<RustGenerator>("PoParser".to_string(), &rules).expect("supported");
    println!("{full_code}");
    assert!(full_code.contains("    linecontent,\n"));
    assert!(full_code.contains("pub fn quick_parse_linecontent("));
    assert!(full_code.contains("pub fn parse_WHITESPACE("));
    assert!(full_code.contains("impl PoParser {"));
}
