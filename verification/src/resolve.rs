//! Resolution of a variable name against a context snapshot: the closed
//! set of recognized names, their values, and their fallbacks.

use vstd::prelude::*;

use crate::chars::count_char;
use crate::chars::rfind_char;
use crate::chars::rfind_from;
use crate::chars::str_eq;
use crate::chars::count_occurrences;
use crate::context::Context;
use crate::context::Selection;
use crate::numeral::dec_rep;
use crate::numeral::usize_to_string;

verus! {

/// Why an expansion call fails as a whole.
#[derive(Clone, Copy, Debug, PartialEq, Eq)]
pub enum Error {
    /// A placeholder named a variable outside the closed set.
    UnknownVariable,
    /// `dirname` was asked of a document with no path while the working
    /// directory could not be determined.
    WorkingDirUnavailable,
}

/// The sentinel shown for a document that is not backed by a file.
pub open spec fn scratch_name() -> Seq<char> {
    "[scratch]"@
}

/// The file-name component of a path: everything after the last `/`,
/// or the whole path when it has no `/`.
pub open spec fn base_of(p: Seq<char>) -> Seq<char> {
    match rfind_from(p, '/') {
        Some(i) => p.skip(i + 1),
        None => p,
    }
}

/// The parent-directory component of a path: everything before the last
/// `/` (the root `/` itself when the last `/` is the first character),
/// or empty when the path has no `/`.
pub open spec fn dir_of(p: Seq<char>) -> Seq<char> {
    match rfind_from(p, '/') {
        Some(i) => if i == 0 {
            p.take(1)
        } else {
            p.take(i)
        },
        None => Seq::empty(),
    }
}

/// The 1-based line number of character position `pos` in `text`: one
/// more than the number of line breaks before `pos`.
pub open spec fn line_of(text: Seq<char>, pos: int) -> int {
    1 + count_char(text.take(pos), '\n') as int
}

/// The text covered by a selection.
pub open spec fn fragment_of(text: Seq<char>, sel: Selection) -> Seq<char> {
    text.subrange(sel.low(), sel.high())
}

/// What `resolve` returns for each variable name, and on which names it
/// fails.
pub open spec fn resolve_spec(ctx: Context, name: Seq<char>) -> Result<Seq<char>, Error> {
    if name == "basename"@ {
        Ok(
            match ctx.doc.path {
                Some(p) => base_of(p@),
                None => scratch_name(),
            },
        )
    } else if name == "filename"@ {
        Ok(
            match ctx.doc.path {
                Some(p) => p@,
                None => scratch_name(),
            },
        )
    } else if name == "dirname"@ {
        match ctx.doc.path {
            Some(p) => Ok(dir_of(p@)),
            None => match ctx.working_dir {
                Some(d) => Ok(d@),
                None => Err(Error::WorkingDirUnavailable),
            },
        }
    } else if name == "linenumber"@ {
        Ok(dec_rep(line_of(ctx.doc.text@, ctx.selection.cursor()) as nat))
    } else if name == "selection"@ {
        Ok(fragment_of(ctx.doc.text@, ctx.selection))
    } else {
        Err(Error::UnknownVariable)
    }
}

/// The file-name component of `p`.
fn base_name(p: &str) -> (r: String)
    ensures
        r@ == base_of(p@),
{
    let len = p.unicode_len();
    match rfind_char(p, '/') {
        Some(i) => {
            proof {
                assert(p@.subrange(i + 1, len as int) =~= p@.skip(i + 1));
            }
            p.substring_char(i + 1, len).to_owned()
        },
        None => p.to_owned(),
    }
}

/// The parent-directory component of `p`.
fn dir_name(p: &str) -> (r: String)
    ensures
        r@ == dir_of(p@),
{
    match rfind_char(p, '/') {
        Some(i) => {
            if i == 0 {
                proof {
                    assert(p@.subrange(0, 1) =~= p@.take(1));
                }
                p.substring_char(0, 1).to_owned()
            } else {
                proof {
                    assert(p@.subrange(0, i as int) =~= p@.take(i as int));
                }
                p.substring_char(0, i).to_owned()
            }
        },
        None => {
            proof {
                assert(""@ =~= Seq::<char>::empty()) by {
                    reveal_strlit("");
                }
            }
            String::new()
        },
    }
}

/// The value of the variable `name` in the context `ctx`, or the error
/// that `resolve_spec` assigns to it.
pub fn resolve(ctx: &Context, name: &str) -> (r: Result<String, Error>)
    requires
        ctx.wf(),
    ensures
        ({
            let sr = resolve_spec(*ctx, name@);
            match r {
                Ok(v) => sr is Ok && sr->Ok_0 == v@,
                Err(e) => sr is Err && sr->Err_0 == e,
            }
        }),
{
    if str_eq(name, "basename") {
        match &ctx.doc.path {
            Some(p) => Ok(base_name(p.as_str())),
            None => Ok("[scratch]".to_owned()),
        }
    } else if str_eq(name, "filename") {
        match &ctx.doc.path {
            Some(p) => Ok(p.clone()),
            None => Ok("[scratch]".to_owned()),
        }
    } else if str_eq(name, "dirname") {
        match &ctx.doc.path {
            Some(p) => Ok(dir_name(p.as_str())),
            None => match &ctx.working_dir {
                Some(d) => Ok(d.clone()),
                None => Err(Error::WorkingDirUnavailable),
            },
        }
    } else if str_eq(name, "linenumber") {
        let breaks = count_occurrences(ctx.doc.text.as_str(), ctx.selection.head, '\n');
        Ok(usize_to_string(breaks + 1))
    } else if str_eq(name, "selection") {
        let low = if ctx.selection.anchor <= ctx.selection.head {
            ctx.selection.anchor
        } else {
            ctx.selection.head
        };
        let high = if ctx.selection.anchor <= ctx.selection.head {
            ctx.selection.head
        } else {
            ctx.selection.anchor
        };
        Ok(ctx.doc.text.as_str().substring_char(low, high).to_owned())
    } else {
        Err(Error::UnknownVariable)
    }
}

} // verus!
