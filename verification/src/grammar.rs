//! The grammar of a block, written out: the text that states a record, and
//! the proof that the parser reads the record back from it.

use crate::delims::DelimitersView;
use crate::doc::{annotation, annotations, marked_line, newline, parsed_doc, DocView};
use crate::kv::{colon_space, key_value, KVView};
use crate::text::{
    first_occurrence, lemma_first_occurrence_is_least, lemma_least_is_first_occurrence, occurs_at,
    trim,
};
use vstd::prelude::*;

verus! {

/// Whether `s` holds no line end.
pub open spec fn single_line(s: Seq<char>) -> bool {
    !s.contains('\n')
}

/// Whether `marker` stands nowhere in `text`.
pub open spec fn absent(marker: Seq<char>, text: Seq<char>) -> bool {
    forall|i: int| !occurs_at(text, marker, i)
}

/// A marked line: the marker, the body and a line end.
pub open spec fn line_text(marker: Seq<char>, body: Seq<char>) -> Seq<char> {
    marker + body + newline()
}

/// The body of an annotation line in the colon form: the key, a colon and a
/// space, the value.
pub open spec fn pair_text(kv: KVView) -> Seq<char> {
    kv.key + colon_space() + kv.value
}

/// One marked line for each pair, in order.
pub open spec fn lines_text(marker: Seq<char>, kvs: Seq<KVView>) -> Seq<char>
    decreases kvs.len(),
{
    if kvs.len() == 0 {
        Seq::empty()
    } else {
        line_text(marker, pair_text(kvs[0])) + lines_text(marker, kvs.drop_first())
    }
}

/// The block that states a record: its two description lines, then its
/// descriptor lines, its parameter lines and its return lines.
pub open spec fn block_text(doc: DocView, delims: DelimitersView) -> Seq<char> {
    line_text(delims.comm, doc.short_description) + line_text(delims.comm, doc.long_description)
        + lines_text(delims.opt, doc.descriptors) + lines_text(delims.params, doc.params)
        + lines_text(delims.ret, doc.returns)
}

/// Whether a pair can be written in the colon form and read back: key and
/// value stand on one line and are trimmed, and the key holds no colon.
pub open spec fn plain_pair(kv: KVView) -> bool {
    &&& single_line(kv.key)
    &&& single_line(kv.value)
    &&& !kv.key.contains(':')
    &&& trim(kv.key) == kv.key
    &&& trim(kv.value) == kv.value
}

/// Whether every pair of the list is plain.
pub open spec fn plain_pairs(kvs: Seq<KVView>) -> bool {
    forall|i: int| 0 <= i < kvs.len() ==> plain_pair(#[trigger] kvs[i])
}

/// Whether the block of a record is well formed: each description stands on
/// one line, every pair is plain, and the marker of a kind of line does not
/// stand in the lines of the kinds that follow it.
pub open spec fn well_formed_block(doc: DocView, delims: DelimitersView) -> bool {
    &&& single_line(doc.short_description)
    &&& single_line(doc.long_description)
    &&& plain_pairs(doc.descriptors)
    &&& plain_pairs(doc.params)
    &&& plain_pairs(doc.returns)
    &&& absent(
        delims.opt,
        lines_text(delims.params, doc.params) + lines_text(delims.ret, doc.returns),
    ) || (doc.params.len() == 0 && doc.returns.len() == 0)
    &&& absent(delims.params, lines_text(delims.ret, doc.returns)) || doc.returns.len() == 0
}

/// A line written with a marker is the marked line that the scan finds at
/// its place.
pub proof fn lemma_line_is_read(
    before: Seq<char>,
    marker: Seq<char>,
    body: Seq<char>,
    after: Seq<char>,
)
    requires
        single_line(body),
    ensures
        marked_line(before + line_text(marker, body) + after, marker, before.len() as int)
            == Some((body, (before.len() + marker.len() + body.len() + 1) as int)),
{
    let text = before + line_text(marker, body) + after;
    let at = before.len() as int;
    let a = at + marker.len();
    let n = a + body.len();
    assert(text.subrange(at, a) =~= marker);
    assert(occurs_at(text, marker, at));
    assert(first_occurrence(text, marker, at) == Some(at));
    assert(text.subrange(n, n + 1) =~= newline());
    assert(occurs_at(text, newline(), n));
    assert forall|j: int| a <= j < n implies !occurs_at(text, newline(), j) by {
        if occurs_at(text, newline(), j) {
            assert(text.subrange(j, j + 1)[0] == newline()[0]);
            assert(text[j] == body[j - a]);
            assert(body.contains(body[j - a]));
        }
    }
    lemma_least_is_first_occurrence(text, newline(), a, n);
    assert(text.subrange(a, n) =~= body);
}

/// A plain pair, written in the colon form, is read back as it is, and its
/// text stands on one line.
pub proof fn lemma_pair_is_read(kv: KVView)
    requires
        plain_pair(kv),
    ensures
        key_value(pair_text(kv)) == Some(kv),
        annotation(pair_text(kv)) == kv,
        single_line(pair_text(kv)),
{
    let line = pair_text(kv);
    let k = kv.key.len() as int;
    assert(line[k] == ':');
    assert(line.contains(':'));
    assert(line.subrange(k, k + 2) =~= colon_space());
    assert(occurs_at(line, colon_space(), k));
    assert forall|j: int| 0 <= j < k implies !occurs_at(line, colon_space(), j) by {
        if occurs_at(line, colon_space(), j) {
            assert(line.subrange(j, j + 2)[0] == colon_space()[0]);
            assert(line[j] == kv.key[j]);
            assert(kv.key.contains(kv.key[j]));
        }
    }
    lemma_least_is_first_occurrence(line, colon_space(), 0, k);
    assert(line.take(k) =~= kv.key);
    assert(line.skip(k + 2) =~= kv.value);
    assert forall|j: int| 0 <= j < line.len() implies line[j] != '\n' by {
        if j < k {
            assert(kv.key.contains(kv.key[j]));
        } else if j >= k + 2 {
            assert(line[j] == kv.value[j - k - 2]);
            assert(kv.value.contains(kv.value[j - k - 2]));
        }
    }
}

/// Where `marker` does not stand in what follows `before`, or nothing
/// follows, the scan for a marked line from there finds none.
pub proof fn lemma_no_line_is_read(before: Seq<char>, marker: Seq<char>, after: Seq<char>)
    requires
        absent(marker, after) || after.len() == 0,
    ensures
        marked_line(before + after, marker, before.len() as int) is None,
{
    let text = before + after;
    let at = before.len() as int;
    lemma_first_occurrence_is_least(text, marker, at);
    if let Some(m) = first_occurrence(text, marker, at) {
        assert(text.subrange(m, m + marker.len()) =~= after.subrange(
            m - at,
            m - at + marker.len(),
        ));
        assert(occurs_at(after, marker, m - at));
        assert(after.len() == 0);
        assert(m + marker.len() == text.len());
    }
}

/// The lines written for a list of plain pairs are read back as that list,
/// and the scan ends after them, where the marker does not stand in what
/// follows.
pub proof fn lemma_lines_are_read(
    before: Seq<char>,
    marker: Seq<char>,
    kvs: Seq<KVView>,
    after: Seq<char>,
)
    requires
        plain_pairs(kvs),
        absent(marker, after) || after.len() == 0,
    ensures
        annotations(before + lines_text(marker, kvs) + after, marker, before.len() as int) == (
            kvs,
            (before.len() + lines_text(marker, kvs).len()) as int,
        ),
    decreases kvs.len(),
{
    let text = before + lines_text(marker, kvs) + after;
    let at = before.len() as int;
    if kvs.len() == 0 {
        assert(text =~= before + after);
        lemma_no_line_is_read(before, marker, after);
        assert(annotations(text, marker, at).0 =~= kvs);
    } else {
        let body = pair_text(kvs[0]);
        let rest = kvs.drop_first();
        let first = line_text(marker, body);
        let following = lines_text(marker, rest) + after;
        lemma_pair_is_read(kvs[0]);
        assert(text =~= before + first + following);
        lemma_line_is_read(before, marker, body, following);
        assert(plain_pairs(rest)) by {
            assert forall|i: int| 0 <= i < rest.len() implies plain_pair(#[trigger] rest[i]) by {
                assert(rest[i] == kvs[i + 1]);
            }
        }
        lemma_lines_are_read(before + first, marker, rest, after);
        assert(text =~= before + first + lines_text(marker, rest) + after);
        assert(seq![kvs[0]] + rest =~= kvs);
    }
}

/// Five texts written one after another, grouped around each of them.
proof fn lemma_regroup(a: Seq<char>, b: Seq<char>, c: Seq<char>, d: Seq<char>, e: Seq<char>)
    ensures
        a + b + c + d + e == Seq::<char>::empty() + a + (b + c + d + e),
        a + b + c + d + e == a + b + (c + d + e),
        a + b + c + d + e == (a + b) + c + (d + e),
        a + b + c + d + e == (a + b + c) + d + e,
        a + b + c + d + e == (a + b + c + d) + e + Seq::<char>::empty(),
        (a + b).len() == a.len() + b.len(),
        (a + b + c).len() == a.len() + b.len() + c.len(),
        (a + b + c + d).len() == a.len() + b.len() + c.len() + d.len(),
        (d + e).len() == d.len() + e.len(),
{
    let text = a + b + c + d + e;
    assert(text =~= Seq::<char>::empty() + a + (b + c + d + e));
    assert(text =~= a + b + (c + d + e));
    assert(text =~= (a + b) + c + (d + e));
    assert(text =~= (a + b + c + d) + e + Seq::<char>::empty());
}

/// Reading a well-formed block gives back the record that it states.
pub proof fn lemma_block_is_read(doc: DocView, delims: DelimitersView)
    requires
        well_formed_block(doc, delims),
    ensures
        parsed_doc(block_text(doc, delims), delims) == Some(doc.at(0)),
{
    let text = block_text(doc, delims);
    let a = line_text(delims.comm, doc.short_description);
    let b = line_text(delims.comm, doc.long_description);
    let c = lines_text(delims.opt, doc.descriptors);
    let d = lines_text(delims.params, doc.params);
    let e = lines_text(delims.ret, doc.returns);
    let none = Seq::<char>::empty();
    let after_short = a.len() as int;
    let after_long = after_short + b.len();
    let after_descriptors = after_long + c.len();
    let after_params = after_descriptors + d.len();
    lemma_regroup(a, b, c, d, e);
    lemma_empty_lines(delims.params, doc.params);
    lemma_empty_lines(delims.ret, doc.returns);
    lemma_line_is_read(none, delims.comm, doc.short_description, b + c + d + e);
    lemma_line_is_read(a, delims.comm, doc.long_description, c + d + e);
    lemma_lines_are_read(a + b, delims.opt, doc.descriptors, d + e);
    lemma_lines_are_read(a + b + c, delims.params, doc.params, e);
    lemma_lines_are_read(a + b + c + d, delims.ret, doc.returns, none);
    assert(marked_line(text, delims.comm, 0) == Some((doc.short_description, after_short)));
    assert(marked_line(text, delims.comm, after_short) == Some(
        (doc.long_description, after_long),
    ));
    assert(annotations(text, delims.opt, after_long) == (doc.descriptors, after_descriptors));
    assert(annotations(text, delims.params, after_descriptors) == (doc.params, after_params));
    assert(annotations(text, delims.ret, after_params).0 == doc.returns);
}

/// No pair gives no line.
pub proof fn lemma_empty_lines(marker: Seq<char>, kvs: Seq<KVView>)
    ensures
        kvs.len() == 0 ==> lines_text(marker, kvs).len() == 0,
{
}

} // verus!
