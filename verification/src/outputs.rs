//! The plain text that presents the documentation of a file.
//!
//! The text has a heading with the file's name. Each record then gives one
//! summary line, with its name, the names of its parameters and its long
//! description, and one indented line for each of its descriptors.

use crate::doc::{Doc, DocView};
use crate::docfile::{DocFile, DocFileView};
use crate::kv::{KVView, KV};
use crate::text::{join, to_chars};
use vstd::prelude::*;

verus! {

/// `s` without its pairs of round brackets: every `(` that a `)` follows at
/// once is left out with that `)`, from left to right.
pub open spec fn without_call_marks(s: Seq<char>) -> Seq<char>
    decreases s.len(),
{
    if s.len() == 0 {
        Seq::empty()
    } else if s.len() >= 2 && s[0] == '(' && s[1] == ')' {
        without_call_marks(s.skip(2))
    } else {
        seq![s[0]] + without_call_marks(s.drop_first())
    }
}

/// The keys of the given pairs, in order.
pub open spec fn keys(kvs: Seq<KVView>) -> Seq<Seq<char>> {
    kvs.map_values(|kv: KVView| kv.key)
}

/// A comma followed by a space: what stands between two parameter names.
pub open spec fn comma_space() -> Seq<char> {
    seq![',', ' ']
}

/// The summary line of a record: its name, then, where it has parameters,
/// ` - ` and their names, then `: ` and the long description.
pub open spec fn summary(doc: DocView) -> Seq<char> {
    if doc.params.len() == 0 {
        without_call_marks(doc.short_description) + seq![':', ' '] + doc.long_description
    } else {
        without_call_marks(doc.short_description) + seq![' ', '-', ' '] + join(
            keys(doc.params),
            comma_space(),
        ) + seq![':', ' '] + doc.long_description
    }
}

/// The line of a descriptor: a tab, the key, a space and the value.
pub open spec fn descriptor_text(kv: KVView) -> Seq<char> {
    seq!['\t'] + kv.key + seq![' '] + kv.value
}

/// The heading of a file's documentation.
pub open spec fn heading(filename: Seq<char>) -> Seq<char> {
    seq!['H', 'e', 'l', 'p', ':', ' '] + filename
}

/// The lines of one record: its summary, then its descriptors in order.
pub open spec fn doc_lines(doc: DocView) -> Seq<Seq<char>> {
    seq![summary(doc)] + doc.descriptors.map_values(|kv: KVView| descriptor_text(kv))
}

/// The lines of the given records, in the order of the records.
pub open spec fn lines_of_docs(docs: Seq<DocView>) -> Seq<Seq<char>>
    decreases docs.len(),
{
    if docs.len() == 0 {
        Seq::empty()
    } else {
        lines_of_docs(docs.drop_last()) + doc_lines(docs.last())
    }
}

/// The lines that present a file's documentation: the heading, then the
/// lines of each record.
pub open spec fn file_lines(file: DocFileView) -> Seq<Seq<char>> {
    seq![heading(file.filename)] + lines_of_docs(file.thedocs)
}

/// The texts of a list of strings.
pub open spec fn string_views(lines: Seq<String>) -> Seq<Seq<char>> {
    lines.map_values(|s: String| s@)
}

/// The name of a record: its short description without pairs of round
/// brackets.
pub fn title(doc: &Doc) -> (r: String)
    ensures
        r@ == without_call_marks(doc@.short_description),
{
    let chars = to_chars(doc.short_description.as_str());
    let n: usize = chars.len();
    let mut out = String::new();
    let mut i: usize = 0;
    proof {
        assert(chars@.skip(0) =~= chars@);
        assert(out@ + without_call_marks(chars@) =~= without_call_marks(chars@));
    }
    while i < n
        invariant
            n == chars@.len(),
            i <= n,
            out@ + without_call_marks(chars@.skip(i as int)) == without_call_marks(chars@),
        decreases n - i,
    {
        let ghost rest = chars@.skip(i as int);
        if chars[i] == '(' && i + 1 < n && chars[i + 1] == ')' {
            proof {
                assert(rest.skip(2) =~= chars@.skip(i + 2));
            }
            i += 2;
        } else {
            proof {
                assert(rest.drop_first() =~= chars@.skip(i + 1));
                assert(out@.push(chars@[i as int]) + without_call_marks(chars@.skip(i + 1))
                    =~= out@ + (seq![rest[0]] + without_call_marks(rest.drop_first())));
            }
            out.push(chars[i]);
            i += 1;
        }
    }
    proof {
        assert(out@ + without_call_marks(chars@.skip(n as int)) =~= out@);
    }
    out
}

/// The names of a record's parameters, with a comma and a space between
/// each two.
pub fn param_names(doc: &Doc) -> (r: String)
    ensures
        r@ == join(keys(doc@.params), comma_space()),
{
    let n: usize = doc.params.len();
    let ghost names = keys(doc@.params);
    let mut out = String::new();
    let mut k: usize = 0;
    while k < n
        invariant
            n == doc.params@.len(),
            k <= n,
            names == keys(doc@.params),
            out@ == join(names.take(k as int), comma_space()),
        decreases n - k,
    {
        let ghost before = out@;
        if k > 0 {
            out.push(',');
            out.push(' ');
        }
        out.append(doc.params[k].key.as_str());
        proof {
            let done = names.take(k + 1);
            assert(done.drop_last() =~= names.take(k as int));
            assert(done.last() == doc.params@[k as int].key@);
            if k > 0 {
                assert(out@ =~= before + comma_space() + done.last());
            } else {
                assert(out@ =~= done[0]);
            }
        }
        k += 1;
    }
    proof {
        assert(names.take(n as int) =~= names);
    }
    out
}

/// The summary line of a record.
pub fn summary_line(doc: &Doc) -> (r: String)
    ensures
        r@ == summary(doc@),
{
    let mut out = title(doc);
    if doc.params.len() == 0 {
        out.push(':');
        out.push(' ');
        out.append(doc.long_description.as_str());
        proof {
            assert(out@ =~= summary(doc@));
        }
    } else {
        let names = param_names(doc);
        out.push(' ');
        out.push('-');
        out.push(' ');
        out.append(names.as_str());
        out.push(':');
        out.push(' ');
        out.append(doc.long_description.as_str());
        proof {
            assert(out@ =~= summary(doc@));
        }
    }
    out
}

/// The line of a descriptor.
pub fn descriptor_line(kv: &KV) -> (r: String)
    ensures
        r@ == descriptor_text(kv@),
{
    let mut out = String::new();
    out.push('\t');
    out.append(kv.key.as_str());
    out.push(' ');
    out.append(kv.value.as_str());
    proof {
        assert(out@ =~= descriptor_text(kv@));
    }
    out
}

/// The heading of a file's documentation.
pub fn heading_line(thedocs: &DocFile) -> (r: String)
    ensures
        r@ == heading(thedocs@.filename),
{
    let mut out = String::new();
    out.push('H');
    out.push('e');
    out.push('l');
    out.push('p');
    out.push(':');
    out.push(' ');
    out.append(thedocs.filename.as_str());
    proof {
        assert(out@ =~= heading(thedocs@.filename));
    }
    out
}

/// Appends the lines of one record to `out`.
fn push_doc_lines(out: &mut Vec<String>, doc: &Doc)
    ensures
        string_views(final(out)@) == string_views(old(out)@) + doc_lines(doc@),
{
    let ghost before = string_views(out@);
    let ghost texts = doc@.descriptors.map_values(|kv: KVView| descriptor_text(kv));
    let first = summary_line(doc);
    proof {
        assert(string_views(out@.push(first)) =~= before + seq![summary(doc@)] + texts.take(0));
    }
    out.push(first);
    let n: usize = doc.descriptors.len();
    let mut j: usize = 0;
    while j < n
        invariant
            n == doc.descriptors@.len(),
            j <= n,
            texts == doc@.descriptors.map_values(|kv: KVView| descriptor_text(kv)),
            string_views(out@) == before + seq![summary(doc@)] + texts.take(j as int),
        decreases n - j,
    {
        let line = descriptor_line(&doc.descriptors[j]);
        proof {
            assert(texts[j as int] == descriptor_text(doc.descriptors@[j as int]@));
            assert(string_views(out@.push(line)) =~= string_views(out@).push(line@));
            assert(string_views(out@).push(line@) =~= before + seq![summary(doc@)] + texts.take(
                j + 1,
            ));
        }
        out.push(line);
        j += 1;
    }
    proof {
        assert(texts.take(n as int) =~= texts);
        assert(before + seq![summary(doc@)] + texts =~= before + doc_lines(doc@));
    }
}

/// The lines that present a file's documentation.
pub fn printer(thedocs: &DocFile) -> (r: Vec<String>)
    ensures
        string_views(r@) == file_lines(thedocs@),
{
    let mut out: Vec<String> = Vec::new();
    let first = heading_line(thedocs);
    out.push(first);
    let n: usize = thedocs.thedocs.len();
    let ghost docs = thedocs@.thedocs;
    let mut i: usize = 0;
    proof {
        assert(string_views(out@) =~= seq![heading(thedocs@.filename)] + lines_of_docs(
            docs.take(0),
        ));
    }
    while i < n
        invariant
            n == thedocs.thedocs@.len(),
            i <= n,
            docs == thedocs@.thedocs,
            string_views(out@) == seq![heading(thedocs@.filename)] + lines_of_docs(
                docs.take(i as int),
            ),
        decreases n - i,
    {
        let ghost before = string_views(out@);
        push_doc_lines(&mut out, &thedocs.thedocs[i]);
        proof {
            assert(docs.take(i + 1).drop_last() =~= docs.take(i as int));
            assert(docs.take(i + 1).last() == thedocs.thedocs@[i as int]@);
            assert(before + doc_lines(docs[i as int]) =~= seq![heading(thedocs@.filename)]
                + lines_of_docs(docs.take(i + 1)));
        }
        i += 1;
    }
    proof {
        assert(docs.take(n as int) =~= docs);
    }
    out
}

} // verus!
