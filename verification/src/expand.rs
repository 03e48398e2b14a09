//! The scanner/orchestrator: walks the input left to right, classifies
//! regions as literal text or placeholder syntax, and assembles the
//! output, resolving each well-formed `%{name}` block.

use vstd::prelude::*;

use crate::chars::find_char;
use crate::chars::find_from;
use crate::chars::lemma_find_from;
use crate::chars::trim;
use crate::chars::trimmed;
use crate::context::Context;
use crate::resolve::Error;
use crate::resolve::resolve;
use crate::resolve::resolve_spec;

verus! {

/// Whether `s` opens with the shell-block prefix `%sh{`.
pub open spec fn is_shell_prefix(s: Seq<char>) -> bool {
    s.len() >= 4 && s[0] == '%' && s[1] == 's' && s[2] == 'h' && s[3] == '{'
}

/// Whether `s` opens with the variable-block prefix `%{`.
pub open spec fn is_variable_prefix(s: Seq<char>) -> bool {
    s.len() >= 2 && s[0] == '%' && s[1] == '{'
}

/// What one expansion call returns for the remaining input `s`: on
/// success, the assembled output together with a flag that records
/// whether a variable block missing its closing brace was tolerated
/// (the remaining text is then passed through verbatim and scanning
/// stops); on failure, the error that aborts the whole call.
pub open spec fn expand_spec(ctx: Context, s: Seq<char>) -> Result<(Seq<char>, bool), Error>
    decreases s.len(),
    via expand_spec_decreases
{
    if s.len() == 0 {
        Ok((Seq::empty(), false))
    } else if is_shell_prefix(s) {
        expand_spec(ctx, s.skip(4))
    } else if is_variable_prefix(s) {
        let rest = s.skip(2);
        match find_from(rest, '}') {
            Some(i) => match resolve_spec(ctx, rest.take(i)) {
                Ok(v) => match expand_spec(ctx, rest.skip(i + 1)) {
                    Ok(t) => Ok((trimmed(v) + t.0, t.1)),
                    Err(e) => Err(e),
                },
                Err(e) => Err(e),
            },
            None => Ok((rest, true)),
        }
    } else if s[0] == '%' {
        match expand_spec(ctx, s.skip(1)) {
            Ok(t) => Ok((seq!['%'] + t.0, t.1)),
            Err(e) => Err(e),
        }
    } else {
        let j = match find_from(s, '%') {
            Some(j) => j,
            None => s.len() as int,
        };
        match expand_spec(ctx, s.skip(j)) {
            Ok(t) => Ok((s.take(j) + t.0, t.1)),
            Err(e) => Err(e),
        }
    }
}

#[via_fn]
proof fn expand_spec_decreases(ctx: Context, s: Seq<char>) {
    if s.len() > 0 && !is_shell_prefix(s) {
        if is_variable_prefix(s) {
            lemma_find_from(s.skip(2), '}');
        } else if s[0] != '%' {
            lemma_find_from(s, '%');
            if find_from(s, '%') is Some {
                let j = find_from(s, '%')->Some_0;
                if j == 0 {
                    assert(s[0] == '%');
                }
            }
        }
    }
}

/// Prepending already-assembled output to the outcome of expanding the
/// rest of the input.
pub open spec fn glue(prefix: Seq<char>, r: Result<(Seq<char>, bool), Error>) -> Result<
    (Seq<char>, bool),
    Error,
> {
    match r {
        Ok(t) => Ok((prefix + t.0, t.1)),
        Err(e) => Err(e),
    }
}

proof fn lemma_glue_assoc(p: Seq<char>, q: Seq<char>, r: Result<(Seq<char>, bool), Error>)
    ensures
        glue(p, glue(q, r)) == glue(p + q, r),
{
    match r {
        Ok(t) => {
            assert(p + (q + t.0) =~= (p + q) + t.0);
        },
        Err(_) => {
        },
    }
}

/// Law: an input in which the marker character does not occur expands to
/// itself, with no substitution, no failure, and no diagnostic.
pub proof fn lemma_no_marker_identity(ctx: Context, s: Seq<char>)
    requires
        find_from(s, '%') is None,
    ensures
        expand_spec(ctx, s) == Ok::<(Seq<char>, bool), Error>((s, false)),
{
    lemma_find_from(s, '%');
    let empty = Seq::<char>::empty();
    assert(expand_spec(ctx, empty) == Ok::<(Seq<char>, bool), Error>((empty, false)));
    if s.len() == 0 {
        assert(s =~= empty);
    } else {
        assert(s[0] != '%');
        let j = s.len() as int;
        assert(s.skip(j) =~= empty);
        assert(expand_spec(ctx, s.skip(j)) == Ok::<(Seq<char>, bool), Error>((empty, false)));
        assert(s.take(j) + empty =~= s);
    }
}

/// The result of one expansion call: either the input itself, returned
/// without copying when it holds no marker character, or a newly
/// assembled string.
pub enum Expanded<'a> {
    Borrowed(&'a str),
    Owned(String),
}

impl<'a> Expanded<'a> {
    /// The characters of the expanded text.
    pub open spec fn text(self) -> Seq<char> {
        match self {
            Expanded::Borrowed(s) => s@,
            Expanded::Owned(s) => s@,
        }
    }

    /// The expanded text as a string slice.
    pub fn as_str<'b>(&'b self) -> (r: &'b str)
        ensures
            r@ == self.text(),
    {
        match self {
            Expanded::Borrowed(s) => s,
            Expanded::Owned(s) => s.as_str(),
        }
    }
}

/// A successful expansion: the output text, and whether a malformed
/// placeholder (a variable block missing its closing brace) was passed
/// through verbatim — the tolerated degradation a caller may want to
/// report as a diagnostic.
pub struct Expansion<'a> {
    pub value: Expanded<'a>,
    pub malformed: bool,
}

/// Expands every well-formed `%{name}` placeholder in `input` against
/// the context snapshot `ctx`, exactly as `expand_spec` describes:
/// a `%sh{` prefix is consumed and its body is scanned like any other
/// text; a variable block missing its closing brace passes the rest of
/// the input through verbatim and sets the `malformed` flag; a marker
/// that opens no recognized prefix stands for itself; an unknown
/// variable name aborts the whole call. An input without the marker
/// character is returned borrowed, without copying.
pub fn expand_variables<'a>(ctx: &Context, input: &'a str) -> (r: Result<Expansion<'a>, Error>)
    requires
        ctx.wf(),
    ensures
        ({
            let sr = expand_spec(*ctx, input@);
            match r {
                Ok(e) => {
                    &&& sr is Ok
                    &&& sr->Ok_0.0 == e.value.text()
                    &&& sr->Ok_0.1 == e.malformed
                    &&& (e.value is Borrowed <==> find_from(input@, '%') is None)
                    &&& (e.value is Borrowed ==> e.value->Borrowed_0@ == input@)
                },
                Err(er) => sr is Err && sr->Err_0 == er,
            }
        }),
{
    let len = input.unicode_len();
    proof {
        assert(input@.skip(0) =~= input@);
    }
    if find_char(input, 0, '%').is_none() {
        proof {
            lemma_no_marker_identity(*ctx, input@);
        }
        return Ok(Expansion { value: Expanded::Borrowed(input), malformed: false });
    }
    let ghost full = expand_spec(*ctx, input@);
    let mut output = String::new();
    let mut pos: usize = 0;
    let mut malformed = false;
    while pos < len
        invariant
            ctx.wf(),
            pos <= len,
            len == input@.len(),
            full == expand_spec(*ctx, input@),
            malformed ==> pos == len && full == Ok::<(Seq<char>, bool), Error>((output@, true)),
            !malformed ==> full == glue(output@, expand_spec(*ctx, input@.skip(pos as int))),
        decreases len - pos,
    {
        let ghost rem = input@.skip(pos as int);
        let ghost out0 = output@;
        proof {
            assert(rem.len() == len - pos);
        }
        if len - pos >= 4 && input.get_char(pos) == '%' && input.get_char(pos + 1) == 's'
            && input.get_char(pos + 2) == 'h' && input.get_char(pos + 3) == '{' {
            proof {
                assert(rem[0] == input@[pos as int]);
                assert(rem[1] == input@[pos + 1]);
                assert(rem[2] == input@[pos + 2]);
                assert(rem[3] == input@[pos + 3]);
                assert(is_shell_prefix(rem));
                assert(rem.skip(4) =~= input@.skip(pos + 4));
                assert(expand_spec(*ctx, rem) == expand_spec(*ctx, input@.skip(pos + 4)));
            }
            pos = pos + 4;
        } else if len - pos >= 2 && input.get_char(pos) == '%' && input.get_char(pos + 1) == '{' {
            proof {
                assert(rem[0] == input@[pos as int]);
                assert(rem[1] == input@[pos + 1]);
                assert(is_variable_prefix(rem));
                assert(!is_shell_prefix(rem));
                assert(rem.skip(2) =~= input@.skip(pos + 2));
            }
            let body_start = pos + 2;
            let ghost rest = rem.skip(2);
            match find_char(input, body_start, '}') {
                Some(cb) => {
                    proof {
                        assert(find_from(rest, '}') == Some(cb - body_start));
                        lemma_find_from(rest, '}');
                    }
                    let name = input.substring_char(body_start, cb);
                    proof {
                        assert(name@ =~= rest.take(cb - body_start));
                    }
                    match resolve(ctx, name) {
                        Ok(v) => {
                            let t = trim(v.as_str());
                            output.append(t.as_str());
                            proof {
                                let i = cb - body_start;
                                assert(rest.skip(i + 1) =~= input@.skip(cb + 1));
                                assert(expand_spec(*ctx, rem) == glue(
                                    trimmed(v@),
                                    expand_spec(*ctx, input@.skip(cb + 1)),
                                ));
                                lemma_glue_assoc(
                                    out0,
                                    trimmed(v@),
                                    expand_spec(*ctx, input@.skip(cb + 1)),
                                );
                            }
                            pos = cb + 1;
                        },
                        Err(e) => {
                            proof {
                                assert(expand_spec(*ctx, rem) == Err::<(Seq<char>, bool), Error>(
                                    e,
                                ));
                            }
                            return Err(e);
                        },
                    }
                },
                None => {
                    proof {
                        assert(expand_spec(*ctx, rem) == Ok::<(Seq<char>, bool), Error>(
                            (rest, true),
                        ));
                        assert(rest =~= input@.subrange(body_start as int, len as int));
                    }
                    let tail = input.substring_char(body_start, len);
                    output.append(tail);
                    malformed = true;
                    pos = len;
                },
            }
        } else if input.get_char(pos) == '%' {
            proof {
                assert(rem[0] == input@[pos as int]);
                assert(!is_shell_prefix(rem));
                assert(!is_variable_prefix(rem));
                if rem.len() >= 4 && rem[1] == 's' && rem[2] == 'h' && rem[3] == '{' {
                    assert(input@[pos + 1] == rem[1]);
                    assert(input@[pos + 2] == rem[2]);
                    assert(input@[pos + 3] == rem[3]);
                    assert(false);
                }
                if rem.len() >= 2 && rem[1] == '{' {
                    assert(input@[pos + 1] == rem[1]);
                    assert(false);
                }
                reveal_strlit("%");
                assert("%"@ =~= seq!['%']);
                assert(rem.skip(1) =~= input@.skip(pos + 1));
                assert(expand_spec(*ctx, rem) == glue(
                    seq!['%'],
                    expand_spec(*ctx, input@.skip(pos + 1)),
                ));
                lemma_glue_assoc(out0, seq!['%'], expand_spec(*ctx, input@.skip(pos + 1)));
            }
            output.append("%");
            pos = pos + 1;
        } else {
            let next = match find_char(input, pos, '%') {
                Some(j) => j,
                None => len,
            };
            proof {
                assert(rem[0] == input@[pos as int]);
                assert(rem[0] != '%');
                assert(!is_shell_prefix(rem));
                assert(!is_variable_prefix(rem));
                let j = match find_from(rem, '%') {
                    Some(j) => j,
                    None => rem.len() as int,
                };
                assert(j == next - pos);
                lemma_find_from(rem, '%');
                assert(pos < next);
                assert(rem.skip(j) =~= input@.skip(next as int));
                assert(rem.take(j) =~= input@.subrange(pos as int, next as int));
                assert(expand_spec(*ctx, rem) == glue(
                    rem.take(j),
                    expand_spec(*ctx, input@.skip(next as int)),
                ));
                lemma_glue_assoc(out0, rem.take(j), expand_spec(*ctx, input@.skip(next as int)));
            }
            let lit = input.substring_char(pos, next);
            output.append(lit);
            pos = next;
        }
    }
    proof {
        if !malformed {
            assert(input@.skip(len as int) =~= Seq::<char>::empty());
            assert(expand_spec(*ctx, input@.skip(len as int)) == Ok::<(Seq<char>, bool), Error>(
                (Seq::<char>::empty(), false),
            ));
            assert(output@ + Seq::<char>::empty() =~= output@);
        }
    }
    Ok(Expansion { value: Expanded::Owned(output), malformed })
}

/// Law: a placeholder naming a variable outside the recognized set makes
/// the whole expansion fail with the unknown-variable error, whatever
/// the context.
pub proof fn lemma_unknown_variable_fails(ctx: Context)
    ensures
        expand_spec(ctx, "%{nonsense}"@) == Err::<(Seq<char>, bool), Error>(Error::UnknownVariable),
{
    let s = "%{nonsense}"@;
    reveal_strlit("%{nonsense}");
    assert(s.len() == 11);
    assert(!is_shell_prefix(s));
    assert(is_variable_prefix(s));
    let rest = s.skip(2);
    assert(rest.len() == 9);
    assert(rest[8] == s[10]);
    assert(rest[8] == '}');
    assert forall|k: int| 0 <= k < 8 implies rest[k] != '}' by {
        assert(rest[k] == s[k + 2]);
    }
    crate::chars::lemma_find_from_is_first(rest, '}', 8);
    let name = rest.take(8);
    reveal_strlit("nonsense");
    assert(name =~= "nonsense"@);
    reveal_strlit("basename");
    reveal_strlit("filename");
    reveal_strlit("dirname");
    reveal_strlit("linenumber");
    reveal_strlit("selection");
    assert(name[0] == 'n');
    assert(name != "basename"@) by {
        assert("basename"@[0] == 'b');
    }
    assert(name != "filename"@) by {
        assert("filename"@[0] == 'f');
    }
    assert(name != "dirname"@) by {
        assert("dirname"@.len() == 7);
    }
    assert(name != "linenumber"@) by {
        assert("linenumber"@.len() == 10);
    }
    assert(name != "selection"@) by {
        assert("selection"@.len() == 9);
    }
    assert(resolve_spec(ctx, name) == Err::<Seq<char>, Error>(Error::UnknownVariable));
}

} // verus!
