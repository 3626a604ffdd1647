//! What holds of extraction and parsing as a whole.

use crate::delims::DelimitersView;
use crate::doc::{made_doc, parsed_doc, DocView};
use crate::docfile::{docs_of, documented, DocFileView};
use crate::extract::{
    lemma_next_region_bounds, line_at, newlines, next_region, regions, ExtractedView,
};
use crate::grammar::{block_text, lemma_block_is_read, well_formed_block};
use crate::outputs::{doc_lines, file_lines};
use crate::text::{lemma_first_occurrence_is_least, occurs_at};
use vstd::prelude::*;

verus! {

/// The records of two lists of regions, one after the other, are the records
/// of the first list followed by those of the second.
pub proof fn lemma_docs_of_concat(
    a: Seq<ExtractedView>,
    b: Seq<ExtractedView>,
    delims: DelimitersView,
)
    ensures
        docs_of(a + b, delims) == docs_of(a, delims) + docs_of(b, delims),
    decreases b.len(),
{
    if b.len() == 0 {
        assert(a + b =~= a);
        assert(docs_of(a, delims) + docs_of(b, delims) =~= docs_of(a, delims));
    } else {
        assert((a + b).drop_last() =~= a + b.drop_last());
        assert((a + b).last() == b.last());
        lemma_docs_of_concat(a, b.drop_last(), delims);
        let init = docs_of(a, delims) + docs_of(b.drop_last(), delims);
        match made_doc(b.last(), delims) {
            Some(doc) => {
                assert(init.push(doc) =~= docs_of(a, delims) + docs_of(b.drop_last(), delims).push(
                    doc,
                ));
            },
            None => {},
        }
    }
}

/// The index, among the regions, of the region that gives the record of
/// index `k`.
pub open spec fn source_index(regions: Seq<ExtractedView>, delims: DelimitersView, k: int) -> int
    decreases regions.len(),
{
    if regions.len() == 0 {
        0
    } else if made_doc(regions.last(), delims) is Some && k == docs_of(
        regions.drop_last(),
        delims,
    ).len() {
        regions.len() - 1
    } else {
        source_index(regions.drop_last(), delims, k)
    }
}

/// Every record is the record of a region.
pub proof fn lemma_doc_has_source(regions: Seq<ExtractedView>, delims: DelimitersView, k: int)
    requires
        0 <= k < docs_of(regions, delims).len(),
    ensures
        0 <= source_index(regions, delims, k) < regions.len(),
        made_doc(regions[source_index(regions, delims, k)], delims) == Some(
            docs_of(regions, delims)[k],
        ),
    decreases regions.len(),
{
    let init = regions.drop_last();
    if made_doc(regions.last(), delims) is Some && k == docs_of(init, delims).len() {
    } else {
        lemma_doc_has_source(init, delims, k);
    }
}

/// The records stand in the order of their regions: of two records, the one
/// that comes first is the record of the region that comes first.
pub proof fn lemma_docs_keep_order(
    regions: Seq<ExtractedView>,
    delims: DelimitersView,
    i: int,
    j: int,
)
    requires
        0 <= i < j < docs_of(regions, delims).len(),
    ensures
        source_index(regions, delims, i) < source_index(regions, delims, j),
    decreases regions.len(),
{
    let init = regions.drop_last();
    if made_doc(regions.last(), delims) is Some && j == docs_of(init, delims).len() {
        lemma_doc_has_source(init, delims, i);
    } else {
        lemma_docs_keep_order(init, delims, i, j);
    }
}

/// Documenting the same text under the same name and delimiters twice gives
/// the same documentation.
pub proof fn lemma_documenting_again(
    first: DocFileView,
    second: DocFileView,
    fname: Seq<char>,
    text: Seq<char>,
    delims: DelimitersView,
)
    requires
        first == documented(fname, text, delims),
        second == documented(fname, text, delims),
    ensures
        first.filename == second.filename,
        first.thedocs.len() == second.thedocs.len(),
        forall|k: int|
            0 <= k < first.thedocs.len() ==> (#[trigger] first.thedocs[k]).same_content(
                second.thedocs[k],
            ),
        file_lines(first) == file_lines(second),
{
}

/// A text in which no start marker is followed by an end marker has no
/// region, and its documentation has no record.
pub proof fn lemma_no_region_no_doc(fname: Seq<char>, text: Seq<char>, delims: DelimitersView)
    requires
        next_region(text, delims.start, delims.end, 0) is None,
    ensures
        regions(text, delims.start, delims.end, 0) == Seq::<ExtractedView>::empty(),
        documented(fname, text, delims) == (DocFileView {
            thedocs: Seq::empty(),
            filename: fname,
        }),
{
}

/// A text in which the start marker does not occur has no region.
pub proof fn lemma_no_start_marker_no_region(text: Seq<char>, delims: DelimitersView)
    requires
        forall|i: int| !occurs_at(text, delims.start, i),
    ensures
        next_region(text, delims.start, delims.end, 0) is None,
{
    lemma_first_occurrence_is_least(text, delims.start, 0);
}

/// A block in which the comment marker does not occur holds no record.
pub proof fn lemma_no_comment_marker_no_doc(text: Seq<char>, delims: DelimitersView)
    requires
        forall|i: int| !occurs_at(text, delims.comm, i),
    ensures
        parsed_doc(text, delims) is None,
{
    lemma_first_occurrence_is_least(text, delims.comm, 0);
}

/// A region that holds no record is left out, and the records of the regions
/// before and after it are those that they give without it.
pub proof fn lemma_malformed_region_is_skipped(
    before: Seq<ExtractedView>,
    bad: ExtractedView,
    after: Seq<ExtractedView>,
    delims: DelimitersView,
)
    requires
        made_doc(bad, delims) is None,
    ensures
        docs_of(before + seq![bad] + after, delims) == docs_of(before, delims) + docs_of(
            after,
            delims,
        ),
{
    lemma_docs_of_concat(before + seq![bad], after, delims);
    lemma_docs_of_concat(before, seq![bad], delims);
    assert(seq![bad].drop_last() =~= Seq::<ExtractedView>::empty());
    assert(seq![bad].last() == bad);
    assert(docs_of(Seq::<ExtractedView>::empty(), delims) =~= Seq::<DocView>::empty());
    assert(docs_of(seq![bad], delims) =~= Seq::<DocView>::empty());
    assert(docs_of(before, delims) + docs_of(seq![bad], delims) =~= docs_of(before, delims));
}

/// The lines that present a record do not depend on where the record
/// stands.
pub proof fn lemma_lines_ignore_position(a: DocView, b: DocView)
    requires
        a.same_content(b),
    ensures
        doc_lines(a) == doc_lines(b),
{
}

/// Reading the block that states a record and presenting what was read
/// reproduces the record: the same descriptions, the same descriptors,
/// parameters and returns, and so the same lines.
pub proof fn lemma_round_trip(doc: DocView, delims: DelimitersView)
    requires
        well_formed_block(doc, delims),
    ensures
        parsed_doc(block_text(doc, delims), delims) is Some,
        parsed_doc(block_text(doc, delims), delims)->0.same_content(doc),
        doc_lines(parsed_doc(block_text(doc, delims), delims)->0) == doc_lines(doc),
{
    lemma_block_is_read(doc, delims);
}

/// A longer beginning of a text holds at least as many line ends.
pub proof fn lemma_newlines_grow(text: Seq<char>, i: int, j: int)
    requires
        0 <= i <= j <= text.len(),
    ensures
        newlines(text.take(i)) <= newlines(text.take(j)),
    decreases j - i,
{
    if i < j {
        lemma_newlines_grow(text, i, j - 1);
        assert(text.take(j).drop_last() =~= text.take(j - 1));
    }
}

/// The regions found from an index on end on lines at or after the line of
/// that index, and each region ends on the line of the one before it or on a
/// later line: the regions stand in the order of the source.
pub proof fn lemma_regions_in_source_order(
    text: Seq<char>,
    start: Seq<char>,
    end: Seq<char>,
    from: int,
)
    requires
        0 <= from <= text.len(),
    ensures
        forall|k: int|
            0 <= k < regions(text, start, end, from).len() ==> line_at(text, from) <= (
            #[trigger] regions(text, start, end, from)[k]).line,
        forall|i: int, j: int|
            0 <= i <= j < regions(text, start, end, from).len() ==> regions(
                text,
                start,
                end,
                from,
            )[i].line <= regions(text, start, end, from)[j].line,
    decreases text.len() - from,
{
    lemma_next_region_bounds(text, start, end, from);
    match next_region(text, start, end, from) {
        Some((content, next)) => {
            if next > from {
                lemma_regions_in_source_order(text, start, end, next);
                lemma_newlines_grow(text, from, next);
                let first = ExtractedView { content, line: line_at(text, next) };
                let rest = regions(text, start, end, next);
                let all = regions(text, start, end, from);
                assert(all == seq![first] + rest);
                assert forall|k: int| 0 <= k < all.len() implies line_at(text, from) <= (
                #[trigger] all[k]).line by {
                    if k > 0 {
                        assert(all[k] == rest[k - 1]);
                    }
                }
                assert forall|i: int, j: int| 0 <= i <= j < all.len() implies all[i].line
                    <= all[j].line by {
                    if i > 0 {
                        assert(all[i] == rest[i - 1]);
                        assert(all[j] == rest[j - 1]);
                    } else if j > 0 {
                        assert(all[j] == rest[j - 1]);
                    }
                }
            }
        },
        None => {},
    }
}

} // verus!
