//! Key and value pairs, and the rule that splits an annotation line into one.

use crate::error::DocError;
use crate::text::{
    contains_char, find, first_occurrence, join, pieces, push_all, split_whitespace, string_of,
    to_chars, tokens, trim, trim_bounds,
};
use vstd::prelude::*;
use vstd::slice::slice_subrange;

verus! {

/// The mathematical value of a `KV`.
pub ghost struct KVView {
    pub key: Seq<char>,
    pub value: Seq<char>,
}

/// A key with its value.
#[derive(Debug, Clone)]
pub struct KV {
    pub key: String,
    pub value: String,
}

impl View for KV {
    type V = KVView;

    open spec fn view(&self) -> KVView {
        KVView { key: self.key@, value: self.value@ }
    }
}

impl Default for KV {
    fn default() -> (r: KV)
        ensures
            r@ == (KVView { key: Seq::empty(), value: Seq::empty() }),
    {
        KV { key: String::new(), value: String::new() }
    }
}

impl PartialEq for KV {
    fn eq(&self, other: &KV) -> (r: bool) {
        self.key == other.key && self.value == other.value
    }
}

impl vstd::std_specs::cmp::PartialEqSpecImpl for KV {
    open spec fn obeys_eq_spec() -> bool {
        true
    }

    open spec fn eq_spec(&self, other: &KV) -> bool {
        self@ == other@
    }
}

impl KV {
    /// The pair of the given key and value.
    pub fn new(key: String, value: String) -> (r: KV)
        ensures
            r.key == key,
            r.value == value,
    {
        KV { key, value }
    }
}

/// A colon followed by a space: what parts key and value in the colon form.
pub open spec fn colon_space() -> Seq<char> {
    seq![':', ' ']
}

/// A single space: what stands between the words of a rejoined value.
pub open spec fn space() -> Seq<char> {
    seq![' ']
}

/// The pair that an annotation line stands for, `None` where the line holds
/// no word at all.
///
/// A line with a colon is parted at its first colon followed by a space: the
/// key is what stands before, the value what stands after, both trimmed; a
/// line whose colons are followed by no space is all key. A line without a
/// colon is split into words: the first is the key, the others, joined by
/// single spaces, are the value.
pub open spec fn key_value(line: Seq<char>) -> Option<KVView> {
    if line.contains(':') {
        match first_occurrence(line, colon_space(), 0) {
            Some(at) => Some(
                KVView { key: trim(line.take(at)), value: trim(line.skip(at + 2)) },
            ),
            None => Some(KVView { key: trim(line), value: Seq::empty() }),
        }
    } else if tokens(line).len() == 0 {
        None
    } else {
        Some(KVView { key: tokens(line)[0], value: join(tokens(line).drop_first(), space()) })
    }
}

/// The trimmed text of `s` as a string.
fn trimmed(s: &[char]) -> (r: String)
    ensures
        r@ == trim(s@),
{
    let (a, b) = trim_bounds(s);
    string_of(slice_subrange(s, a, b))
}

/// The pieces from index `from` on, joined by single spaces.
fn rejoin(s: &[char], bounds: &Vec<(usize, usize)>, from: usize) -> (r: Vec<char>)
    requires
        from <= bounds@.len(),
        forall|i: int| 0 <= i < bounds@.len() ==> (#[trigger] bounds@[i]).0 < bounds@[i].1 <= s@.len(),
    ensures
        r@ == join(pieces(s@, bounds@).skip(from as int), space()),
{
    let m: usize = bounds.len();
    let ghost words = pieces(s@, bounds@);
    let mut out: Vec<char> = Vec::new();
    let mut k: usize = from;
    while k < m
        invariant
            m == bounds@.len(),
            from <= k <= m,
            words == pieces(s@, bounds@),
            forall|i: int| 0 <= i < bounds@.len() ==> (#[trigger] bounds@[i]).0 < bounds@[i].1 <= s@.len(),
            out@ == join(words.subrange(from as int, k as int), space()),
        decreases m - k,
    {
        let ghost before = out@;
        if k > from {
            out.push(' ');
        }
        let (a, b) = bounds[k];
        push_all(&mut out, slice_subrange(s, a, b));
        proof {
            let done = words.subrange(from as int, k + 1);
            assert(done.drop_last() =~= words.subrange(from as int, k as int));
            assert(done.last() == s@.subrange(a as int, b as int));
            if k > from {
                assert(out@ =~= before + space() + done.last());
            } else {
                assert(out@ =~= done[0]);
            }
        }
        k += 1;
    }
    proof {
        assert(words.subrange(from as int, m as int) =~= words.skip(from as int));
    }
    out
}

/// Splits an annotation line, given as characters, into key and value.
pub fn kv_of_line(line: &[char]) -> (r: Result<KV, DocError>)
    ensures
        match r {
            Ok(kv) => key_value(line@) == Some(kv@),
            Err(e) => e == DocError::EmptyAnnotationLine && key_value(line@) is None,
        },
{
    if contains_char(line, ':') {
        let sep: Vec<char> = vec![':', ' '];
        assert(sep@ =~= colon_space());
        match find(line, sep.as_slice(), 0) {
            Some(at) => {
                let n: usize = line.len();
                proof {
                    crate::text::lemma_first_occurrence_is_least(line@, colon_space(), 0);
                    assert(line@.subrange(0, at as int) =~= line@.take(at as int));
                    assert(line@.subrange(at + 2, line@.len() as int) =~= line@.skip(at + 2));
                }
                let key = trimmed(slice_subrange(line, 0, at));
                let value = trimmed(slice_subrange(line, at + 2, n));
                Ok(KV { key, value })
            },
            None => Ok(KV { key: trimmed(line), value: String::new() }),
        }
    } else {
        let bounds = split_whitespace(line);
        if bounds.len() == 0 {
            Err(DocError::EmptyAnnotationLine)
        } else {
            let (a, b) = bounds[0];
            let key = string_of(slice_subrange(line, a, b));
            let rest = rejoin(line, &bounds, 1);
            proof {
                assert(tokens(line@).drop_first() =~= tokens(line@).skip(1));
            }
            let value = string_of(rest.as_slice());
            Ok(KV { key, value })
        }
    }
}

/// Splits an annotation line into key and value.
///
/// Fails, with `EmptyAnnotationLine`, exactly on a line without a colon that
/// holds no word.
pub fn as_kv(input: &str) -> (r: Result<KV, DocError>)
    ensures
        match r {
            Ok(kv) => key_value(input@) == Some(kv@),
            Err(e) => e == DocError::EmptyAnnotationLine && key_value(input@) is None,
        },
{
    let chars = to_chars(input);
    kv_of_line(chars.as_slice())
}

} // verus!
