//! The block extractor: finds the delimited regions of a source text.
//!
//! The text is scanned from left to right for the start marker and, after
//! it, for the end marker. What stands between the two is one region; the
//! scan goes on after the end marker. A start marker inside a region is part
//! of the region's text.

use crate::delims::Delimiters;
use crate::text::{find, first_occurrence, lemma_first_occurrence_is_least, string_of, to_chars};
use vstd::prelude::*;
use vstd::slice::slice_subrange;

verus! {

/// The mathematical value of an `Extracted`.
pub ghost struct ExtractedView {
    pub content: Seq<char>,
    pub line: nat,
}

/// The text of one delimited region, with the number of the line on which
/// the region ends. Lines are counted from 1.
#[derive(Debug, Clone)]
pub struct Extracted {
    pub content: String,
    pub line: u32,
}

impl View for Extracted {
    type V = ExtractedView;

    open spec fn view(&self) -> ExtractedView {
        ExtractedView { content: self.content@, line: self.line as nat }
    }
}

/// The mathematical values of a list of regions.
pub open spec fn extracted_views(regions: Seq<Extracted>) -> Seq<ExtractedView> {
    regions.map_values(|e: Extracted| e@)
}

/// The number of line ends in `s`.
pub open spec fn newlines(s: Seq<char>) -> nat
    decreases s.len(),
{
    if s.len() == 0 {
        0
    } else if s.last() == '\n' {
        newlines(s.drop_last()) + 1
    } else {
        newlines(s.drop_last())
    }
}

/// The number of the line that index `at` of `text` stands on, counted
/// from 1.
pub open spec fn line_at(text: Seq<char>, at: int) -> nat {
    1 + newlines(text.take(at))
}

/// The next region at or after `from`: the text between the first
/// occurrence of `start` and the first occurrence of `end` after it, with the
/// index just after that end marker.
pub open spec fn next_region(text: Seq<char>, start: Seq<char>, end: Seq<char>, from: int)
    -> Option<(Seq<char>, int)> {
    match first_occurrence(text, start, from) {
        Some(s) => match first_occurrence(text, end, s + start.len()) {
            Some(e) => Some((text.subrange(s + start.len(), e), e + end.len())),
            None => None,
        },
        None => None,
    }
}

/// A region lies at or after the index at which the scan for it began, and
/// within the text.
pub proof fn lemma_next_region_bounds(
    text: Seq<char>,
    start: Seq<char>,
    end: Seq<char>,
    from: int,
)
    ensures
        match next_region(text, start, end, from) {
            Some((content, next)) => 0 <= from <= next <= text.len(),
            None => true,
        },
{
    if from >= 0 {
        lemma_first_occurrence_is_least(text, start, from);
        if let Some(s) = first_occurrence(text, start, from) {
            lemma_first_occurrence_is_least(text, end, s + start.len());
        }
    }
}

/// The regions of `text` from index `from` on, in order. The scan stops
/// where no further region is found, or where one is found that takes no
/// text at all, which only two empty markers allow.
pub open spec fn regions(text: Seq<char>, start: Seq<char>, end: Seq<char>, from: int) -> Seq<
    ExtractedView,
>
    decreases text.len() - from,
{
    match next_region(text, start, end, from) {
        Some((content, next)) => {
            proof {
                lemma_next_region_bounds(text, start, end, from);
            }
            if next > from {
                seq![ExtractedView { content, line: line_at(text, next) }] + regions(
                    text,
                    start,
                    end,
                    next,
                )
            } else {
                Seq::empty()
            }
        },
        None => Seq::empty(),
    }
}

/// Whether the lines of `text`, and the line after its last, can be numbered
/// in 32 bits.
pub open spec fn within_limit(text: Seq<char>) -> bool {
    text.len() + 1 < u32::MAX
}

/// Tells whether the lines of `text` can be numbered.
pub fn is_within_limit(text: &str) -> (r: bool)
    ensures
        r == within_limit(text@),
{
    text.unicode_len() < 0xFFFF_FFFE
}

/// The number of the line that index `to` stands on, from that of index
/// `from`.
fn line_after(text: &[char], from: usize, line: u32, to: usize) -> (r: u32)
    requires
        from <= to <= text@.len(),
        line == line_at(text@, from as int),
        line <= from + 1,
        text@.len() + 1 < u32::MAX,
    ensures
        r == line_at(text@, to as int),
        r <= to + 1,
{
    let mut k: usize = from;
    let mut cur: u32 = line;
    while k < to
        invariant
            from <= k <= to <= text@.len(),
            cur == line_at(text@, k as int),
            cur <= k + 1,
            text@.len() + 1 < u32::MAX,
        decreases to - k,
    {
        proof {
            assert(text@.take(k + 1).drop_last() =~= text@.take(k as int));
        }
        if text[k] == '\n' {
            cur = cur + 1;
        }
        k += 1;
    }
    cur
}

/// Finds every delimited region of `input`, in order, each with the number
/// of the line on which it ends.
pub fn parse_strings_from_file(input: &str, delims: &Delimiters) -> (r: Vec<Extracted>)
    requires
        within_limit(input@),
    ensures
        extracted_views(r@) == regions(input@, delims@.start, delims@.end, 0),
        forall|i: int| 0 <= i < r@.len() ==> (#[trigger] r@[i]).line <= input@.len() + 1,
{
    let chars = to_chars(input);
    let text = chars.as_slice();
    let start_chars = to_chars(delims.start.as_str());
    let start = start_chars.as_slice();
    let end_chars = to_chars(delims.end.as_str());
    let end = end_chars.as_slice();
    let mut out: Vec<Extracted> = Vec::new();
    let mut pos: usize = 0;
    let mut line: u32 = 1;
    proof {
        assert(text@.take(0) =~= Seq::<char>::empty());
        assert(extracted_views(out@) =~= Seq::empty());
        assert(extracted_views(out@) + regions(text@, start@, end@, 0) =~= regions(
            text@,
            start@,
            end@,
            0,
        ));
    }
    loop
        invariant
            text@ == input@,
            start@ == delims@.start,
            end@ == delims@.end,
            text@.len() + 1 < u32::MAX,
            pos <= text@.len(),
            line == line_at(text@, pos as int),
            line <= pos + 1,
            extracted_views(out@) + regions(text@, start@, end@, pos as int) == regions(
                text@,
                start@,
                end@,
                0,
            ),
            forall|i: int| 0 <= i < out@.len() ==> (#[trigger] out@[i]).line <= text@.len() + 1,
        ensures
            extracted_views(out@) == regions(text@, start@, end@, 0),
            forall|i: int| 0 <= i < out@.len() ==> (#[trigger] out@[i]).line <= text@.len() + 1,
        decreases text@.len() - pos,
    {
        let ghost done = extracted_views(out@);
        proof {
            assert(done + Seq::<ExtractedView>::empty() =~= done);
            lemma_next_region_bounds(text@, start@, end@, pos as int);
        }
        let s = match find(text, start, pos) {
            Some(s) => s,
            None => {
                break ;
            },
        };
        proof {
            lemma_first_occurrence_is_least(text@, start@, pos as int);
        }
        let a: usize = s + start.len();
        let e = match find(text, end, a) {
            Some(e) => e,
            None => {
                break ;
            },
        };
        proof {
            lemma_first_occurrence_is_least(text@, end@, a as int);
        }
        let next: usize = e + end.len();
        if next <= pos {
            break ;
        }
        line = line_after(text, pos, line, next);
        let region = Extracted { content: string_of(slice_subrange(text, a, e)), line };
        proof {
            let rest = regions(text@, start@, end@, next as int);
            assert(extracted_views(out@.push(region)) =~= done.push(region@));
            assert(done.push(region@) + rest =~= done + (seq![region@] + rest));
        }
        out.push(region);
        pos = next;
    }
    out
}

} // verus!
