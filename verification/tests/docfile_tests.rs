use bashdoc::delims::Delimiters;
use bashdoc::doc::Doc;
use bashdoc::docfile::{document, generate_doc_file, start, DocFile, SourceFile};
use bashdoc::extract::{parse_strings_from_file, Extracted};
use bashdoc::kv::KV;
use std::path::Path;

fn sample_doc() -> Doc {
    let mut doc = Doc::default();
    doc.short_description = "runner()".to_string();
    doc.long_description = "This is the beginning".to_string();
    doc.descriptors = Vec::new();
    let mut params = Vec::new();
    params.push(KV::new(
        "location".to_string(),
        "where to put it".to_string(),
    ));
    params.push(KV::new("filename".to_string(), "don\'t test me".to_string()));
    doc.params = params;
    let mut returns = Vec::new();
    returns.push(KV::new("nothing".to_string(), String::new()));
    doc.returns = returns;
    doc
}

#[test]
fn test_add() {
    let mut dfile = DocFile {
        thedocs: Vec::new(),
        filename: String::from("zshrc"),
    };
    dfile.add(Doc {
        short_description: String::from("lala"),
        long_description: String::from("rawr"),
        descriptors: Vec::new(),
        params: Vec::new(),
        returns: Vec::new(),
        position: 0,
    });
    assert_eq!(
        dfile.thedocs,
        [Doc {
            short_description: String::from("lala"),
            long_description: String::from("rawr"),
            descriptors: Vec::new(),
            params: Vec::new(),
            returns: Vec::new(),
            position: 0,
        }]
    );
}

#[test]
fn docfile_add() {
    let mut docfile = DocFile::default();
    let expected = sample_doc();
    let result = sample_doc();
    assert_eq!(0, docfile.thedocs.len());
    docfile.add(expected);
    assert_eq!(1, docfile.thedocs.len());
    assert_eq!(result, docfile.thedocs[0]);
}

#[test]
fn add_keeps_earlier_docs_and_the_name() {
    let mut dfile = DocFile {
        thedocs: Vec::new(),
        filename: String::from("zshrc"),
    };
    let mut first = Doc::default();
    first.short_description = String::from("first()");
    let mut second = Doc::default();
    second.short_description = String::from("second()");
    dfile.add(first.clone());
    dfile.add(second.clone());
    assert_eq!(dfile.thedocs, vec![first, second]);
    assert_eq!(dfile.filename, "zshrc");
}

const SCRIPT: &str = "#!/bin/sh\n#;\n# cd()\n# moves to given directory\n# @param directory: folder to move to\n# @return void\n#\"\ncd() {\n    cd $1\n}\n\n#;\n# up()\n# moves up\n# - CTRL-U does the same\n#\"\nup() {\n    cd ..\n}\n";

#[test]
fn documents_a_file_in_source_order() {
    let file = document("zshrc", SCRIPT, &Delimiters::default());
    assert_eq!(file.filename, "zshrc");
    assert_eq!(file.thedocs.len(), 2);
    assert_eq!(file.thedocs[0].short_description, "cd()");
    assert_eq!(file.thedocs[0].long_description, "moves to given directory");
    assert_eq!(
        file.thedocs[0].params,
        vec![KV::new(
            "directory".to_string(),
            "folder to move to".to_string()
        )]
    );
    assert_eq!(
        file.thedocs[0].returns,
        vec![KV::new("void".to_string(), String::new())]
    );
    assert_eq!(file.thedocs[0].position, 8);
    assert_eq!(file.thedocs[1].short_description, "up()");
    assert_eq!(
        file.thedocs[1].descriptors,
        vec![KV::new("CTRL-U".to_string(), "does the same".to_string())]
    );
    assert_eq!(file.thedocs[1].position, 17);
}

#[test]
fn documenting_again_gives_the_same() {
    let first = document("zshrc", SCRIPT, &Delimiters::default());
    let second = document("zshrc", SCRIPT, &Delimiters::default());
    assert_eq!(first.filename, second.filename);
    assert_eq!(first.thedocs, second.thedocs);
    let positions: Vec<u32> = first.thedocs.iter().map(|d| d.position).collect();
    let again: Vec<u32> = second.thedocs.iter().map(|d| d.position).collect();
    assert_eq!(positions, again);
}

#[test]
fn file_without_blocks_has_no_docs() {
    let file = document("plain", "echo hello\nexit 0\n", &Delimiters::default());
    assert_eq!(file.filename, "plain");
    assert!(file.thedocs.is_empty());
    let file = document("empty", "", &Delimiters::default());
    assert!(file.thedocs.is_empty());
}

#[test]
fn malformed_block_is_left_out_and_the_rest_is_kept() {
    let text = "#;\n# one()\n# first\n#\"\n#;\nnothing marked\n#\"\n#;#\"\n#;\n# two()\n# second\n#\"\n";
    let file = document("mixed", text, &Delimiters::default());
    let names: Vec<&str> = file
        .thedocs
        .iter()
        .map(|d| d.short_description.as_str())
        .collect();
    assert_eq!(names, vec!["one()", "two()"]);
    let positions: Vec<u32> = file.thedocs.iter().map(|d| d.position).collect();
    assert_eq!(positions, vec![5, 13]);
}

#[test]
fn generate_doc_file_keeps_the_order_of_the_regions() {
    let regions = vec![
        Extracted {
            content: String::from("# c()\n"),
            line: 9,
        },
        Extracted {
            content: String::new(),
            line: 4,
        },
        Extracted {
            content: String::from("# a()\n# first letter\n"),
            line: 2,
        },
        Extracted {
            content: String::from("unmarked\n"),
            line: 5,
        },
        Extracted {
            content: String::from("# b()\n"),
            line: 7,
        },
    ];
    let file = generate_doc_file(&regions, "letters", &Delimiters::default());
    assert_eq!(file.filename, "letters");
    let names: Vec<&str> = file
        .thedocs
        .iter()
        .map(|d| d.short_description.as_str())
        .collect();
    assert_eq!(names, vec!["c()", "a()", "b()"]);
    let positions: Vec<u32> = file.thedocs.iter().map(|d| d.position).collect();
    assert_eq!(positions, vec![10, 3, 8]);
}

#[test]
fn document_is_extraction_followed_by_generation() {
    let delims = Delimiters::default();
    let regions = parse_strings_from_file(SCRIPT, &delims);
    let by_steps = generate_doc_file(&regions, "zshrc", &delims);
    let at_once = document("zshrc", SCRIPT, &delims);
    assert_eq!(by_steps.thedocs, at_once.thedocs);
    assert_eq!(by_steps.filename, at_once.filename);
}

fn stem(path: &str) -> String {
    String::from(Path::new(path).file_stem().unwrap().to_str().unwrap())
}

#[test]
fn two_files_give_two_doc_files() {
    let files = vec![
        SourceFile {
            name: stem("/home/user/scripts/first.sh"),
            text: String::from("#;\n# one()\n# the first\n#\"\none() { :; }\n"),
        },
        SourceFile {
            name: stem("second.zsh"),
            text: String::from("\n\n#;\n# two()\n# the second\n#\"\n"),
        },
    ];
    let all = start(&files, &Delimiters::default());
    assert_eq!(all.len(), 2);
    assert_eq!(all[0].filename, "first");
    assert_eq!(all[0].thedocs.len(), 1);
    assert_eq!(all[0].thedocs[0].short_description, "one()");
    assert_eq!(all[0].thedocs[0].position, 5);
    assert_eq!(all[1].filename, "second");
    assert_eq!(all[1].thedocs.len(), 1);
    assert_eq!(all[1].thedocs[0].short_description, "two()");
    assert_eq!(all[1].thedocs[0].position, 7);
}

#[test]
fn no_file_gives_no_doc_file() {
    let all = start(&[], &Delimiters::default());
    assert!(all.is_empty());
}

#[test]
fn default_doc_file_is_empty() {
    let file = DocFile::default();
    assert!(file.thedocs.is_empty());
    assert_eq!(file.filename, "");
}
