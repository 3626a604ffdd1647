//! The six markers that bound a documentation block and its lines.

use crate::error::DocError;
use crate::text::{pieces, split_whitespace, string_of, to_chars, tokens};
use vstd::prelude::*;
use vstd::slice::slice_subrange;

verus! {

/// The mathematical value of a set of delimiters.
pub ghost struct DelimitersView {
    pub start: Seq<char>,
    pub end: Seq<char>,
    pub params: Seq<char>,
    pub ret: Seq<char>,
    pub opt: Seq<char>,
    pub comm: Seq<char>,
}

impl DelimitersView {
    /// No marker is empty and no two are the same.
    pub open spec fn well_formed(self) -> bool {
        &&& self.start.len() > 0
        &&& self.end.len() > 0
        &&& self.params.len() > 0
        &&& self.ret.len() > 0
        &&& self.opt.len() > 0
        &&& self.comm.len() > 0
        &&& self.start != self.end
        &&& self.start != self.params
        &&& self.start != self.ret
        &&& self.start != self.opt
        &&& self.start != self.comm
        &&& self.end != self.params
        &&& self.end != self.ret
        &&& self.end != self.opt
        &&& self.end != self.comm
        &&& self.params != self.ret
        &&& self.params != self.opt
        &&& self.params != self.comm
        &&& self.ret != self.opt
        &&& self.ret != self.comm
        &&& self.opt != self.comm
    }
}

/// The markers of a documentation block: `start` and `end` bound the block,
/// `comm` begins a description line, `opt` a descriptor line, `params` a
/// parameter line and `ret` a return line.
#[derive(Debug, Clone)]
pub struct Delimiters {
    pub start: String,
    pub end: String,
    pub params: String,
    pub ret: String,
    pub opt: String,
    pub comm: String,
}

impl View for Delimiters {
    type V = DelimitersView;

    open spec fn view(&self) -> DelimitersView {
        DelimitersView {
            start: self.start@,
            end: self.end@,
            params: self.params@,
            ret: self.ret@,
            opt: self.opt@,
            comm: self.comm@,
        }
    }
}

/// The markers in use where none are configured.
pub open spec fn default_markers() -> DelimitersView {
    DelimitersView {
        start: "#;"@,
        end: "#\""@,
        params: "@param"@,
        ret: "@return"@,
        opt: "# -"@,
        comm: "# "@,
    }
}

/// The default markers are six distinct non-empty strings.
pub proof fn lemma_default_markers_well_formed()
    ensures
        default_markers().well_formed(),
{
    reveal_strlit("#;");
    reveal_strlit("#\"");
    reveal_strlit("@param");
    reveal_strlit("@return");
    reveal_strlit("# -");
    reveal_strlit("# ");
    let d = default_markers();
    assert(d.start[1] == ';');
    assert(d.end[1] == '"');
    assert(d.params[0] == '@');
    assert(d.ret[0] == '@');
    assert(d.opt[1] == ' ');
    assert(d.comm[1] == ' ');
}

impl Default for Delimiters {
    fn default() -> (r: Delimiters)
        ensures
            r@ == default_markers(),
            r@.well_formed(),
    {
        proof {
            lemma_default_markers_well_formed();
        }
        Delimiters {
            start: "#;".to_string(),
            end: "#\"".to_string(),
            params: "@param".to_string(),
            ret: "@return".to_string(),
            opt: "# -".to_string(),
            comm: "# ".to_string(),
        }
    }
}

/// The delimiters that six words give, in the order start, end, parameter,
/// return, descriptor, comment.
pub open spec fn markers_of(words: Seq<Seq<char>>) -> DelimitersView
    recommends
        words.len() == 6,
{
    DelimitersView {
        start: words[0],
        end: words[1],
        params: words[2],
        ret: words[3],
        opt: words[4],
        comm: words[5],
    }
}

impl Delimiters {
    /// Whether no marker is empty and no two are the same.
    pub fn is_well_formed(&self) -> (r: bool)
        ensures
            r == self@.well_formed(),
    {
        !self.start.as_str().is_empty() && !self.end.as_str().is_empty()
            && !self.params.as_str().is_empty() && !self.ret.as_str().is_empty()
            && !self.opt.as_str().is_empty() && !self.comm.as_str().is_empty()
            && self.start != self.end && self.start != self.params && self.start != self.ret
            && self.start != self.opt && self.start != self.comm && self.end != self.params
            && self.end != self.ret && self.end != self.opt && self.end != self.comm
            && self.params != self.ret && self.params != self.opt && self.params != self.comm
            && self.ret != self.opt && self.ret != self.comm && self.opt != self.comm
    }

    /// The delimiters made of the six given markers.
    ///
    /// Fails, with `ConfigMalformed`, exactly where a marker is empty or two
    /// markers are the same.
    pub fn new(
        start: String,
        end: String,
        params: String,
        ret: String,
        opt: String,
        comm: String,
    ) -> (r: Result<Delimiters, DocError>)
        ensures
            match r {
                Ok(d) => d.start == start && d.end == end && d.params == params && d.ret == ret
                    && d.opt == opt && d.comm == comm && d@.well_formed(),
                Err(e) => e == DocError::ConfigMalformed && !(DelimitersView {
                    start: start@,
                    end: end@,
                    params: params@,
                    ret: ret@,
                    opt: opt@,
                    comm: comm@,
                }).well_formed(),
            },
    {
        let d = Delimiters { start, end, params, ret, opt, comm };
        if d.is_well_formed() {
            Ok(d)
        } else {
            Err(DocError::ConfigMalformed)
        }
    }

    /// The delimiters that a line of six words gives, in the order start,
    /// end, parameter, return, descriptor, comment.
    ///
    /// Fails, with `ConfigMalformed`, exactly where the line does not hold
    /// six words or two of them are the same.
    pub fn override_delims(overrides: &str) -> (r: Result<Delimiters, DocError>)
        ensures
            match r {
                Ok(d) => tokens(overrides@).len() == 6 && d@ == markers_of(tokens(overrides@))
                    && d@.well_formed(),
                Err(e) => e == DocError::ConfigMalformed && !(tokens(overrides@).len() == 6
                    && markers_of(tokens(overrides@)).well_formed()),
            },
    {
        let chars = to_chars(overrides);
        let line = chars.as_slice();
        let bounds = split_whitespace(line);
        if bounds.len() != 6 {
            return Err(DocError::ConfigMalformed);
        }
        let ghost words = pieces(line@, bounds@);
        let d = Delimiters {
            start: string_of(slice_subrange(line, bounds[0].0, bounds[0].1)),
            end: string_of(slice_subrange(line, bounds[1].0, bounds[1].1)),
            params: string_of(slice_subrange(line, bounds[2].0, bounds[2].1)),
            ret: string_of(slice_subrange(line, bounds[3].0, bounds[3].1)),
            opt: string_of(slice_subrange(line, bounds[4].0, bounds[4].1)),
            comm: string_of(slice_subrange(line, bounds[5].0, bounds[5].1)),
        };
        proof {
            assert(d.start@ == words[0]);
            assert(d.end@ == words[1]);
            assert(d.params@ == words[2]);
            assert(d.ret@ == words[3]);
            assert(d.opt@ == words[4]);
            assert(d.comm@ == words[5]);
        }
        if d.is_well_formed() {
            Ok(d)
        } else {
            Err(DocError::ConfigMalformed)
        }
    }
}

} // verus!
