//! Interpolated expressions: `{{`, blanks, a variable name, blanks, `}}`.
use crate::ast::{Expr, ExprView, SourceInfo, Variable, VariableView};
use crate::error::{
    done, failed, never_gives_way, Error, Outcome, ParseError, ParseErrorView, ParseResult,
};
use crate::primitives::{
    blanks_at, literal, past_blanks, spec_literal, spec_try_literal, try_literal,
    zero_or_more_spaces,
};
use crate::reader::{lemma_run_len, run_len, Reader, ReaderState};
use crate::string::carry;
use vstd::prelude::*;

verus! {

/// Whether `c` is a letter or a number, as Unicode classes them.
pub uninterp spec fn alphanumeric(c: char) -> bool;

/// `char::is_alphanumeric` tells whether the character is alphabetic or
/// numeric by the Unicode tables; its answer depends on the character alone.
pub assume_specification[ char::is_alphanumeric ](c: char) -> (b: bool)
    ensures
        b == alphanumeric(c),
;

/// Whether `c` may stand in a variable name, given whether it is a letter
/// or a number: such a character may, and `_` and `-`.
pub open spec fn in_name(c: char, alphanumeric: bool) -> bool {
    alphanumeric || c == '_' || c == '-'
}

/// Tells whether `c` may stand in a variable name, given whether it is a
/// letter or a number.
pub fn name_char_of(c: char, alphanumeric: bool) -> (b: bool)
    ensures
        b == in_name(c, alphanumeric),
{
    alphanumeric || c == '_' || c == '-'
}

/// A character of a variable name: a letter, a number, `_` or `-`.
pub open spec fn is_name_char(c: char) -> bool {
    in_name(c, alphanumeric(c))
}

/// `is_name_char`, as a value.
pub open spec fn name_char() -> spec_fn(char) -> bool {
    |c: char| is_name_char(c)
}

/// The longest run of name characters, which must not be empty: if it is,
/// the failure is fatal and the reader has not moved.
pub open spec fn spec_variable_name(input: Seq<char>, st: ReaderState) -> Outcome<VariableView> {
    let n = run_len(input, st.index as int, name_char());
    if n == 0 {
        failed(st.pos, false, ParseErrorView::TemplateVariable, st)
    } else {
        done(
            VariableView {
                name: input.subrange(st.index as int, st.index + n),
                source_info: SourceInfo { start: st.pos, end: st.walk(input, n).pos },
            },
            st.walk(input, n),
        )
    }
}

/// Reads a variable name.
pub fn variable_name(reader: &mut Reader) -> (r: ParseResult<Variable>)
    requires
        old(reader).wf(),
    ensures
        final(reader).ran(*old(reader), r, spec_variable_name(old(reader).input(), old(reader).state)),
        r is Ok ==> r->Ok_0.source_info.ordered(),
        never_gives_way(r),
{
    let start = reader.snapshot();
    let accept = |c: &char| -> (b: bool)
        ensures
            b == name_char()(*c),
        { name_char_of(*c, c.is_alphanumeric()) };
    let name = reader.read_while(accept);
    proof {
        let input = reader.input();
        assert forall|i: int| start.index <= i < start.index + name@.len() implies name_char()(
            #[trigger] input[i],
        ) by {
            assert(input[i] == name@[i - start.index]);
        }
        lemma_run_len(input, start.index as int, name_char(), name@.len());
    }
    if name.as_str().is_empty() {
        return Err(Error { pos: start.pos, recoverable: false, inner: ParseError::TemplateVariable });
    }
    Ok(Variable { name, source_info: SourceInfo { start: start.pos, end: reader.state.pos } })
}

/// What stands between the braces: blanks, a name, blanks.
pub open spec fn spec_expr_body(input: Seq<char>, st: ReaderState) -> Outcome<ExprView> {
    let variable = spec_variable_name(input, past_blanks(input, st));
    match variable.result {
        Err(_) => carry(variable),
        Ok(v) => done(
            ExprView {
                space0: blanks_at(input, st),
                variable: v,
                space1: blanks_at(input, variable.state),
            },
            past_blanks(input, variable.state),
        ),
    }
}

/// Reads blanks, a variable name and blanks.
pub fn expr_body(reader: &mut Reader) -> (r: ParseResult<Expr>)
    requires
        old(reader).wf(),
    ensures
        final(reader).ran(*old(reader), r, spec_expr_body(old(reader).input(), old(reader).state)),
        never_gives_way(r),
{
    let space0 = match zero_or_more_spaces(reader) {
        Ok(w) => w,
        Err(e) => {
            return Err(e);
        },
    };
    let variable = match variable_name(reader) {
        Ok(v) => v,
        Err(e) => {
            return Err(e);
        },
    };
    let space1 = match zero_or_more_spaces(reader) {
        Ok(w) => w,
        Err(e) => {
            return Err(e);
        },
    };
    Ok(Expr { space0, variable, space1 })
}

/// An interpolation marker. Without `{{` the failure is recoverable and the
/// reader has not moved; after it every failure is fatal.
pub open spec fn spec_expr(input: Seq<char>, st: ReaderState) -> Outcome<ExprView> {
    let open = spec_try_literal("{{"@, input, st);
    if open.result is Err {
        carry(open)
    } else {
        let body = spec_expr_body(input, open.state);
        match body.result {
            Err(_) => body,
            Ok(e) => {
                let close = spec_literal("}}"@, input, body.state);
                if close.result is Err {
                    carry(close)
                } else {
                    done(e, close.state)
                }
            },
        }
    }
}

/// Reads `{{`, an expression and `}}`.
pub fn parse(reader: &mut Reader) -> (r: ParseResult<Expr>)
    requires
        old(reader).wf(),
    ensures
        final(reader).ran(*old(reader), r, spec_expr(old(reader).input(), old(reader).state)),
{
    match try_literal("{{", reader) {
        Ok(_) => {},
        Err(e) => {
            return Err(e);
        },
    }
    let e = match expr_body(reader) {
        Ok(e) => e,
        Err(e) => {
            return Err(e);
        },
    };
    match literal("}}", reader) {
        Ok(_) => {},
        Err(e) => {
            return Err(e);
        },
    }
    Ok(e)
}

} // verus!
