//! Documentation records and the parser that reads one from a block of text.
//!
//! A block is scanned from left to right. Each field is found by looking for
//! the next occurrence of its marker and taking the text up to the next line
//! end, and each scan goes on where the one before it stopped: first the
//! short description, then the long one, then every descriptor line, every
//! parameter line and every return line. A line of one kind that stands
//! before the end of the scan for an earlier kind is therefore passed over;
//! it is no error.
//!
//! A descriptor, parameter or return line that holds no word is no error
//! either: it gives a pair with an empty key and an empty value.

use crate::delims::{Delimiters, DelimitersView};
use crate::error::DocError;
use crate::extract::{Extracted, ExtractedView};
use crate::kv::{key_value, kv_of_line, KVView, KV};
use crate::text::{find, first_occurrence, lemma_first_occurrence_is_least, string_of, to_chars};
use vstd::prelude::*;
use vstd::slice::slice_subrange;

verus! {

/// The mathematical value of a `Doc`.
pub ghost struct DocView {
    pub short_description: Seq<char>,
    pub long_description: Seq<char>,
    pub descriptors: Seq<KVView>,
    pub params: Seq<KVView>,
    pub returns: Seq<KVView>,
    pub position: nat,
}

impl DocView {
    /// The record at another position.
    pub open spec fn at(self, position: nat) -> DocView {
        DocView { position, ..self }
    }

    /// Whether two records say the same, wherever they stand.
    pub open spec fn same_content(self, other: DocView) -> bool {
        self.at(0) == other.at(0)
    }
}

/// The mathematical values of a list of pairs.
pub open spec fn kv_views(kvs: Seq<KV>) -> Seq<KVView> {
    kvs.map_values(|kv: KV| kv@)
}

/// One block of documentation.
#[derive(Debug, Clone)]
pub struct Doc {
    /// The first description line, by custom the name of what is documented.
    pub short_description: String,
    /// The second description line, empty where there is none.
    pub long_description: String,
    /// The descriptor lines, in order.
    pub descriptors: Vec<KV>,
    /// The parameter lines, in order.
    pub params: Vec<KV>,
    /// The return lines, in order.
    pub returns: Vec<KV>,
    /// The line after the block in its source.
    pub position: u32,
}

impl View for Doc {
    type V = DocView;

    open spec fn view(&self) -> DocView {
        DocView {
            short_description: self.short_description@,
            long_description: self.long_description@,
            descriptors: kv_views(self.descriptors@),
            params: kv_views(self.params@),
            returns: kv_views(self.returns@),
            position: self.position as nat,
        }
    }
}

impl Default for Doc {
    fn default() -> (r: Doc)
        ensures
            r@ == (DocView {
                short_description: Seq::empty(),
                long_description: Seq::empty(),
                descriptors: Seq::empty(),
                params: Seq::empty(),
                returns: Seq::empty(),
                position: 0,
            }),
    {
        let r = Doc {
            short_description: String::new(),
            long_description: String::new(),
            descriptors: Vec::new(),
            params: Vec::new(),
            returns: Vec::new(),
            position: 0,
        };
        proof {
            assert(kv_views(r.descriptors@) =~= Seq::empty());
            assert(kv_views(r.params@) =~= Seq::empty());
            assert(kv_views(r.returns@) =~= Seq::empty());
        }
        r
    }
}

/// Whether two lists hold the same pairs in the same order.
fn same_pairs(a: &Vec<KV>, b: &Vec<KV>) -> (r: bool)
    ensures
        r == (kv_views(a@) == kv_views(b@)),
{
    let n: usize = a.len();
    if n != b.len() {
        proof {
            assert(kv_views(a@).len() != kv_views(b@).len());
        }
        return false;
    }
    let mut i: usize = 0;
    while i < n
        invariant
            n == a@.len(),
            n == b@.len(),
            i <= n,
            forall|j: int| 0 <= j < i ==> a@[j]@ == b@[j]@,
        decreases n - i,
    {
        if !(a[i].key == b[i].key && a[i].value == b[i].value) {
            proof {
                assert(kv_views(a@)[i as int] == a@[i as int]@);
                assert(kv_views(b@)[i as int] == b@[i as int]@);
            }
            return false;
        }
        i += 1;
    }
    proof {
        assert(kv_views(a@) =~= kv_views(b@));
    }
    true
}

impl PartialEq for Doc {
    fn eq(&self, other: &Doc) -> (r: bool) {
        self.short_description == other.short_description && self.long_description
            == other.long_description && same_pairs(&self.descriptors, &other.descriptors)
            && same_pairs(&self.params, &other.params) && same_pairs(
            &self.returns,
            &other.returns,
        )
    }
}

impl vstd::std_specs::cmp::PartialEqSpecImpl for Doc {
    open spec fn obeys_eq_spec() -> bool {
        true
    }

    /// Two records are equal where they say the same; their positions are
    /// not compared.
    open spec fn eq_spec(&self, other: &Doc) -> bool {
        self@.same_content(other@)
    }
}

/// A line end.
pub open spec fn newline() -> Seq<char> {
    seq!['\n']
}

/// The next marked line at or after `from`: the text between the first
/// occurrence of `marker` and the first line end after it, together with the
/// index just after that line end. `None` where the marker does not occur or
/// no line end follows it.
pub open spec fn marked_line(text: Seq<char>, marker: Seq<char>, from: int) -> Option<
    (Seq<char>, int),
> {
    match first_occurrence(text, marker, from) {
        Some(m) => match first_occurrence(text, newline(), m + marker.len()) {
            Some(n) => Some((text.subrange(m + marker.len(), n), n + 1)),
            None => None,
        },
        None => None,
    }
}

/// A marked line ends after the index at which the scan for it began, and
/// within the text.
pub proof fn lemma_marked_line_advances(text: Seq<char>, marker: Seq<char>, from: int)
    ensures
        match marked_line(text, marker, from) {
            Some((line, next)) => 0 <= from < next <= text.len(),
            None => true,
        },
{
    if from >= 0 {
        lemma_first_occurrence_is_least(text, marker, from);
        if let Some(m) = first_occurrence(text, marker, from) {
            lemma_first_occurrence_is_least(text, newline(), m + marker.len());
        }
    }
}

/// The pair that an annotation line gives. A line that holds no word gives
/// the pair of an empty key and an empty value.
pub open spec fn annotation(line: Seq<char>) -> KVView {
    match key_value(line) {
        Some(kv) => kv,
        None => KVView { key: Seq::empty(), value: Seq::empty() },
    }
}

/// The pairs of all the lines marked by `marker` that follow one another from
/// `from` on, and the index at which the scan for them ends.
pub open spec fn annotations(text: Seq<char>, marker: Seq<char>, from: int) -> (Seq<KVView>, int)
    decreases text.len() - from,
{
    match marked_line(text, marker, from) {
        Some((line, next)) => {
            proof {
                lemma_marked_line_advances(text, marker, from);
            }
            let rest = annotations(text, marker, next);
            (seq![annotation(line)] + rest.0, rest.1)
        },
        None => (Seq::empty(), from),
    }
}

/// The record that a block of text holds under the given delimiters, at
/// position 0; `None` where the block has no short description.
pub open spec fn parsed_doc(text: Seq<char>, delims: DelimitersView) -> Option<DocView> {
    match marked_line(text, delims.comm, 0) {
        Some((short, after_short)) => {
            let (long, after_long) = match marked_line(text, delims.comm, after_short) {
                Some((line, next)) => (line, next),
                None => (Seq::empty(), after_short),
            };
            let (descriptors, after_descriptors) = annotations(text, delims.opt, after_long);
            let (params, after_params) = annotations(text, delims.params, after_descriptors);
            let (rets, _) = annotations(text, delims.ret, after_params);
            Some(
                DocView {
                    short_description: short,
                    long_description: long,
                    descriptors: descriptors,
                    params: params,
                    returns: rets,
                    position: 0,
                },
            )
        },
        None => None,
    }
}

/// Scans for the next marked line at or after `from`. Where there is one,
/// gives the bounds of its text and the index after its line end.
fn take_marked_line(text: &[char], marker: &[char], from: usize) -> (r: Option<
    (usize, usize, usize),
>)
    ensures
        match r {
            Some((a, b, next)) => {
                &&& from <= a <= b < next <= text@.len()
                &&& marked_line(text@, marker@, from as int) == Some(
                    (text@.subrange(a as int, b as int), next as int),
                )
            },
            None => marked_line(text@, marker@, from as int) is None,
        },
{
    let line_end: Vec<char> = vec!['\n'];
    assert(line_end@ =~= newline());
    let n: usize = text.len();
    match find(text, marker, from) {
        Some(m) => {
            proof {
                lemma_first_occurrence_is_least(text@, marker@, from as int);
            }
            let a: usize = m + marker.len();
            match find(text, line_end.as_slice(), a) {
                Some(b) => {
                    proof {
                        lemma_first_occurrence_is_least(text@, newline(), a as int);
                    }
                    Some((a, b, b + 1))
                },
                None => None,
            }
        },
        None => None,
    }
}

/// Collects the pairs of all the lines marked by `marker` that follow one
/// another from `from` on. Gives them with the index at which the scan ends.
fn take_annotations(text: &[char], marker: &[char], from: usize) -> (r: (Vec<KV>, usize))
    ensures
        from <= r.1 <= text@.len() || r.1 == from,
        (kv_views(r.0@), r.1 as int) == annotations(text@, marker@, from as int),
{
    let mut out: Vec<KV> = Vec::new();
    let mut pos: usize = from;
    proof {
        assert(kv_views(out@) =~= Seq::empty());
        assert(kv_views(out@) + annotations(text@, marker@, from as int).0 =~= annotations(
            text@,
            marker@,
            from as int,
        ).0);
    }
    loop
        invariant
            from <= pos <= text@.len() || pos == from,
            kv_views(out@) + annotations(text@, marker@, pos as int).0 == annotations(
                text@,
                marker@,
                from as int,
            ).0,
            annotations(text@, marker@, pos as int).1 == annotations(
                text@,
                marker@,
                from as int,
            ).1,
        ensures
            from <= pos <= text@.len() || pos == from,
            (kv_views(out@), pos as int) == annotations(text@, marker@, from as int),
        decreases text@.len() - pos,
    {
        match take_marked_line(text, marker, pos) {
            Some((a, b, next)) => {
                let kv = match kv_of_line(slice_subrange(text, a, b)) {
                    Ok(kv) => kv,
                    Err(_) => KV { key: String::new(), value: String::new() },
                };
                proof {
                    let line = text@.subrange(a as int, b as int);
                    assert(kv@ == annotation(line));
                    let rest = annotations(text@, marker@, next as int);
                    assert(kv_views(out@.push(kv)) =~= kv_views(out@).push(kv@));
                    assert(kv_views(out@).push(kv@) + rest.0 =~= kv_views(out@) + (seq![kv@]
                        + rest.0));
                }
                out.push(kv);
                pos = next;
            },
            None => {
                proof {
                    assert(kv_views(out@) + Seq::<KVView>::empty() =~= kv_views(out@));
                }
                break ;
            },
        }
    }
    (out, pos)
}

/// Reads the record that a block of text, given as characters, holds.
pub fn parse_block(text: &[char], delims: &Delimiters) -> (r: Result<Doc, DocError>)
    ensures
        match r {
            Ok(doc) => parsed_doc(text@, delims@) == Some(doc@),
            Err(e) => e == DocError::MissingShortDescription && parsed_doc(text@, delims@)
                is None,
        },
{
    let comm = to_chars(delims.comm.as_str());
    let opt = to_chars(delims.opt.as_str());
    let params = to_chars(delims.params.as_str());
    let ret = to_chars(delims.ret.as_str());
    match take_marked_line(text, comm.as_slice(), 0) {
        Some((a, b, after_short)) => {
            let short_description = string_of(slice_subrange(text, a, b));
            let (long_description, after_long) = match take_marked_line(
                text,
                comm.as_slice(),
                after_short,
            ) {
                Some((c, d, next)) => (string_of(slice_subrange(text, c, d)), next),
                None => (String::new(), after_short),
            };
            let (descriptors, after_descriptors) = take_annotations(
                text,
                opt.as_slice(),
                after_long,
            );
            let (params, after_params) = take_annotations(
                text,
                params.as_slice(),
                after_descriptors,
            );
            let (rets, _) = take_annotations(text, ret.as_slice(), after_params);
            Ok(
                Doc {
                    short_description,
                    long_description,
                    descriptors,
                    params,
                    returns: rets,
                    position: 0,
                },
            )
        },
        None => Err(DocError::MissingShortDescription),
    }
}

/// Reads the record that a block of text holds, at position 0.
///
/// Fails, with `MissingShortDescription`, exactly where the comment marker
/// does not occur in the block or no line end follows it.
pub fn parse_doc(input: &str, delims: &Delimiters) -> (r: Result<Doc, DocError>)
    ensures
        match r {
            Ok(doc) => parsed_doc(input@, delims@) == Some(doc@),
            Err(e) => e == DocError::MissingShortDescription && parsed_doc(input@, delims@)
                is None,
        },
{
    let text = to_chars(input);
    parse_block(text.as_slice(), delims)
}

/// The record that a region holds: what its text gives, at the line after
/// the one on which the region ends.
pub open spec fn made_doc(region: ExtractedView, delims: DelimitersView) -> Option<DocView> {
    match parsed_doc(region.content, delims) {
        Some(doc) => Some(doc.at(region.line + 1)),
        None => None,
    }
}

impl Doc {
    /// Reads the record that a region holds. Its position is the line after
    /// the one on which the region ends.
    ///
    /// Fails, with `MissingShortDescription`, exactly where the region's text
    /// has no short description.
    pub fn make_doc(vector: &Extracted, delims: &Delimiters) -> (r: Result<Doc, DocError>)
        requires
            vector.line < u32::MAX,
        ensures
            match r {
                Ok(doc) => made_doc(vector@, delims@) == Some(doc@),
                Err(e) => e == DocError::MissingShortDescription && made_doc(vector@, delims@)
                    is None,
            },
    {
        match parse_doc(vector.content.as_str(), delims) {
            Ok(parsed) => {
                let mut doc = parsed;
                doc.position = vector.line + 1;
                Ok(doc)
            },
            Err(e) => Err(e),
        }
    }
}

} // verus!
