use bashdoc::delims::Delimiters;
use bashdoc::doc::{parse_doc, Doc};
use bashdoc::error::DocError;
use bashdoc::extract::Extracted;
use bashdoc::kv::KV;

fn kv(key: &str, value: &str) -> KV {
    KV::new(String::from(key), String::from(value))
}

#[test]
fn parses_the_whole_block() {
    let block = "# cd()\n# moves to given directory\n# @param directory: folder to move to\n# @return void\n";
    let doc = parse_doc(block, &Delimiters::default()).unwrap();
    assert_eq!(doc.short_description, "cd()");
    assert_eq!(doc.long_description, "moves to given directory");
    assert_eq!(doc.descriptors, Vec::<KV>::new());
    assert_eq!(doc.params, vec![kv("directory", "folder to move to")]);
    assert_eq!(doc.returns, vec![kv("void", "")]);
    assert_eq!(doc.position, 0);
}

#[test]
fn parses_descriptors_params_and_returns_in_order() {
    let block = "\n# runner()\n# This is the beginning\n# - CTRL-O pushs the boundaries\n# - CTRL-X: stops\n# @param filename: don't test me\n# @param location: where to put it\n# @return nothing:\n# @return code: 0 or 1\n";
    let doc = parse_doc(block, &Delimiters::default()).unwrap();
    assert_eq!(doc.short_description, "runner()");
    assert_eq!(doc.long_description, "This is the beginning");
    assert_eq!(
        doc.descriptors,
        vec![kv("CTRL-O", "pushs the boundaries"), kv("CTRL-X", "stops")]
    );
    assert_eq!(
        doc.params,
        vec![
            kv("filename", "don't test me"),
            kv("location", "where to put it")
        ]
    );
    assert_eq!(doc.returns, vec![kv("nothing:", ""), kv("code", "0 or 1")]);
}

#[test]
fn block_without_comment_line_is_an_error() {
    let err = parse_doc("no marker here\n", &Delimiters::default()).unwrap_err();
    assert_eq!(err, DocError::MissingShortDescription);
    let err = parse_doc("", &Delimiters::default()).unwrap_err();
    assert_eq!(err, DocError::MissingShortDescription);
}

#[test]
fn short_description_needs_a_line_end() {
    let err = parse_doc("# cd()", &Delimiters::default()).unwrap_err();
    assert_eq!(err, DocError::MissingShortDescription);
}

#[test]
fn long_description_is_optional() {
    let doc = parse_doc("# cd()\n", &Delimiters::default()).unwrap();
    assert_eq!(doc.short_description, "cd()");
    assert_eq!(doc.long_description, "");
    assert!(doc.descriptors.is_empty());
    assert!(doc.params.is_empty());
    assert!(doc.returns.is_empty());
}

#[test]
fn long_description_without_line_end_is_absent() {
    let doc = parse_doc("# cd()\n# unfinished", &Delimiters::default()).unwrap();
    assert_eq!(doc.short_description, "cd()");
    assert_eq!(doc.long_description, "");
}

#[test]
fn line_before_an_earlier_kind_is_passed_over() {
    let block = "# f()\n# does f\n# @param early: before the descriptor\n# - KEY note\n# @param late: after the descriptor\n# @return r: result\n# @param last: after the return\n";
    let doc = parse_doc(block, &Delimiters::default()).unwrap();
    assert_eq!(doc.descriptors, vec![kv("KEY", "note")]);
    assert_eq!(
        doc.params,
        vec![
            kv("late", "after the descriptor"),
            kv("last", "after the return")
        ]
    );
    assert_eq!(doc.returns, Vec::<KV>::new());
}

#[test]
fn return_before_param_hides_the_earlier_return() {
    let block = "# f()\n# does f\n# @return first: lost\n# @param p: kept\n# @return second: kept\n";
    let doc = parse_doc(block, &Delimiters::default()).unwrap();
    assert_eq!(doc.params, vec![kv("p", "kept")]);
    assert_eq!(doc.returns, vec![kv("second", "kept")]);
}

#[test]
fn descriptor_line_can_be_taken_as_long_description() {
    let block = "# f()\n# - KEY note\n# - OTHER text\n";
    let doc = parse_doc(block, &Delimiters::default()).unwrap();
    assert_eq!(doc.long_description, "- KEY note");
    assert_eq!(doc.descriptors, vec![kv("OTHER", "text")]);
}

#[test]
fn empty_annotation_line_gives_an_empty_pair() {
    let block = "# f()\n# does f\n# @param\n# @param x: one\n# @return \t \n";
    let doc = parse_doc(block, &Delimiters::default()).unwrap();
    assert_eq!(doc.params, vec![kv("", ""), kv("x", "one")]);
    assert_eq!(doc.returns, vec![kv("", "")]);
}

#[test]
fn marker_is_found_anywhere_in_a_line() {
    let block = "intro # f()\nmore # does f\ntext @param x: one\n";
    let doc = parse_doc(block, &Delimiters::default()).unwrap();
    assert_eq!(doc.short_description, "f()");
    assert_eq!(doc.long_description, "does f");
    assert_eq!(doc.params, vec![kv("x", "one")]);
}

#[test]
fn make_doc_points_after_the_region() {
    let region = Extracted {
        content: String::from("\n# cd()\n# moves to given directory\n"),
        line: 6,
    };
    let doc = Doc::make_doc(&region, &Delimiters::default()).unwrap();
    assert_eq!(doc.short_description, "cd()");
    assert_eq!(doc.long_description, "moves to given directory");
    assert_eq!(doc.position, 7);
}

#[test]
fn make_doc_reports_a_missing_short_description() {
    let region = Extracted {
        content: String::from("nothing marked"),
        line: 3,
    };
    let err = Doc::make_doc(&region, &Delimiters::default()).unwrap_err();
    assert_eq!(err, DocError::MissingShortDescription);
}

#[test]
fn make_doc_with_other_markers() {
    let delims = Delimiters::override_delims("#; #\" @params @returns #- #").unwrap();
    let region = Extracted {
        content: String::from("# runner()\n# This is the beginning\n# @params filename: don't test me\n# @params location: where to put it\n# @returns nothing: \n"),
        line: 1,
    };
    let result = Doc::make_doc(&region, &delims).unwrap();
    let mut expected = Doc::default();
    expected.short_description = " runner()".to_string();
    expected.long_description = " This is the beginning".to_string();
    expected.params = vec![
        kv("filename", "don't test me"),
        kv("location", "where to put it"),
    ];
    expected.returns = vec![kv("nothing", "")];
    assert_eq!(result, expected);
    assert_eq!(result.position, 2);
}

#[test]
fn equality_of_docs_ignores_position() {
    let mut a = Doc::default();
    a.short_description = String::from("f()");
    a.params = vec![kv("x", "one")];
    let mut b = a.clone();
    b.position = 41;
    assert_eq!(a, b);
    b.params = vec![kv("x", "two")];
    assert_ne!(a, b);
    let mut c = a.clone();
    c.returns = vec![kv("x", "one")];
    assert_ne!(a, c);
    let mut d = a.clone();
    d.long_description = String::from("other");
    assert_ne!(a, d);
}

#[test]
fn default_doc_is_empty() {
    let doc = Doc::default();
    assert_eq!(doc.short_description, "");
    assert_eq!(doc.long_description, "");
    assert!(doc.descriptors.is_empty() && doc.params.is_empty() && doc.returns.is_empty());
    assert_eq!(doc.position, 0);
}
