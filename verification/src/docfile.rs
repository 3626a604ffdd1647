//! The documentation of whole files: every record of a file, in the order in
//! which the blocks stand in it.

use crate::delims::{Delimiters, DelimitersView};
use crate::doc::{made_doc, Doc, DocView};
use crate::extract::{
    extracted_views, parse_strings_from_file, regions, within_limit, Extracted, ExtractedView,
};
use vstd::prelude::*;

verus! {

/// The mathematical value of a `DocFile`.
pub ghost struct DocFileView {
    pub thedocs: Seq<DocView>,
    pub filename: Seq<char>,
}

/// The mathematical values of a list of records.
pub open spec fn doc_views(docs: Seq<Doc>) -> Seq<DocView> {
    docs.map_values(|d: Doc| d@)
}

/// All the documentation of one file.
#[derive(Debug)]
pub struct DocFile {
    /// The records, in the order of their blocks in the file.
    pub thedocs: Vec<Doc>,
    /// The name of the file, without directory and extension.
    pub filename: String,
}

impl View for DocFile {
    type V = DocFileView;

    open spec fn view(&self) -> DocFileView {
        DocFileView { thedocs: doc_views(self.thedocs@), filename: self.filename@ }
    }
}

impl Default for DocFile {
    fn default() -> (r: DocFile)
        ensures
            r@ == (DocFileView { thedocs: Seq::empty(), filename: Seq::empty() }),
    {
        let r = DocFile { thedocs: Vec::new(), filename: String::new() };
        proof {
            assert(doc_views(r.thedocs@) =~= Seq::empty());
        }
        r
    }
}

impl DocFile {
    /// Appends a record to the file's documentation.
    pub fn add(&mut self, doc: Doc)
        ensures
            final(self).thedocs@ == old(self).thedocs@.push(doc),
            final(self)@.thedocs == old(self)@.thedocs.push(doc@),
            final(self).filename == old(self).filename,
    {
        self.thedocs.push(doc);
        proof {
            assert(doc_views(old(self).thedocs@.push(doc)) =~= doc_views(old(self).thedocs@).push(
                doc@,
            ));
        }
    }
}

/// The records of a list of regions, in the order of the regions. A region
/// whose text has no short description gives no record; the others are not
/// touched by it.
pub open spec fn docs_of(regions: Seq<ExtractedView>, delims: DelimitersView) -> Seq<DocView>
    decreases regions.len(),
{
    if regions.len() == 0 {
        Seq::empty()
    } else {
        match made_doc(regions.last(), delims) {
            Some(doc) => docs_of(regions.drop_last(), delims).push(doc),
            None => docs_of(regions.drop_last(), delims),
        }
    }
}

/// Reads the record of each region and collects them, in order, under the
/// given file name. A region without a short description is left out.
pub fn generate_doc_file(docs: &[Extracted], fname: &str, delims: &Delimiters) -> (r: DocFile)
    requires
        forall|i: int| 0 <= i < docs@.len() ==> (#[trigger] docs@[i]).line < u32::MAX,
    ensures
        r@.filename == fname@,
        r@.thedocs == docs_of(extracted_views(docs@), delims@),
{
    let mut all_docs = DocFile { thedocs: Vec::new(), filename: fname.to_string() };
    let n: usize = docs.len();
    let ghost all = extracted_views(docs@);
    let mut i: usize = 0;
    proof {
        assert(doc_views(all_docs.thedocs@) =~= Seq::empty());
    }
    while i < n
        invariant
            n == docs@.len(),
            i <= n,
            all == extracted_views(docs@),
            forall|k: int| 0 <= k < docs@.len() ==> (#[trigger] docs@[k]).line < u32::MAX,
            all_docs.filename@ == fname@,
            all_docs@.thedocs == docs_of(all.take(i as int), delims@),
        decreases n - i,
    {
        proof {
            assert(all.take(i + 1).drop_last() =~= all.take(i as int));
            assert(all.take(i + 1).last() == docs@[i as int]@);
        }
        match Doc::make_doc(&docs[i], delims) {
            Ok(doc) => {
                all_docs.add(doc);
            },
            Err(_) => {},
        }
        i += 1;
    }
    proof {
        assert(all.take(n as int) =~= all);
    }
    all_docs
}

/// The documentation of a file of the given name and text: the records of
/// its regions, in the order in which the regions stand in the text.
pub open spec fn documented(fname: Seq<char>, text: Seq<char>, delims: DelimitersView)
    -> DocFileView {
    DocFileView {
        thedocs: docs_of(regions(text, delims.start, delims.end, 0), delims),
        filename: fname,
    }
}

/// Documents one file: extracts the regions of its text and reads the record
/// of each.
pub fn document(fname: &str, text: &str, delims: &Delimiters) -> (r: DocFile)
    requires
        within_limit(text@),
    ensures
        r@ == documented(fname@, text@, delims@),
{
    let found = parse_strings_from_file(text, delims);
    generate_doc_file(found.as_slice(), fname, delims)
}

/// A file that was read: its name, without directory and extension, and its
/// text.
#[derive(Debug, Clone)]
pub struct SourceFile {
    pub name: String,
    pub text: String,
}

/// Whether `out` holds the documentation of each of `files`, in order.
pub open spec fn documents_all(
    out: Seq<DocFile>,
    files: Seq<SourceFile>,
    delims: DelimitersView,
) -> bool {
    &&& out.len() == files.len()
    &&& forall|i: int|
        0 <= i < files.len() ==> (#[trigger] out[i])@ == documented(
            files[i].name@,
            files[i].text@,
            delims,
        )
}

/// Documents every file: one `DocFile` for each, in the order given.
pub fn start(files: &[SourceFile], delims: &Delimiters) -> (r: Vec<DocFile>)
    requires
        forall|i: int| 0 <= i < files@.len() ==> within_limit((#[trigger] files@[i]).text@),
    ensures
        documents_all(r@, files@, delims@),
{
    let mut out: Vec<DocFile> = Vec::new();
    let n: usize = files.len();
    let mut i: usize = 0;
    while i < n
        invariant
            n == files@.len(),
            i <= n,
            forall|k: int| 0 <= k < files@.len() ==> within_limit((#[trigger] files@[k]).text@),
            documents_all(out@, files@.take(i as int), delims@),
        decreases n - i,
    {
        let file = &files[i];
        let doc_file = document(file.name.as_str(), file.text.as_str(), delims);
        out.push(doc_file);
        i += 1;
    }
    proof {
        assert(files@.take(n as int) =~= files@);
    }
    out
}

} // verus!
