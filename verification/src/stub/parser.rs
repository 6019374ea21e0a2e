//! The stub-notation tokenizer and parser: raw text is normalized into a
//! flat token stream, and a cursor over that stream is folded into the
//! command tree. Every step is mirrored by a mathematical description that
//! the contracts state.
use vstd::prelude::*;

use crate::stub::{Cmd, CmdModel, InputComment, InputCommentModel, Stub, StubModel, Var, VarModel,
    VarType};
use crate::text::{
    chars_eq, chars_to_string, chars_vec, contains_char, contains_char_exec, copy_range, dec_val,
    is_digit_char, join_tokens, join_with, matches_at, matches_at_exec, parse_u64_dec,
    replace_chars, replace_seq, split_char, split_chars_exec,
};

verus! {

// ---------------------------------------------------------------------------
// Errors.
// ---------------------------------------------------------------------------

/// Why a stub description was rejected. Each variant that carries text
/// carries the offending token.
#[derive(Clone, Debug, PartialEq, Eq)]
pub enum ParseError {
    /// A top-level token that is no keyword, newline or blank.
    Unrecognized(String),
    /// A variable whose type token is none of the recognized forms.
    VariableType(String),
    /// A length-bounded type whose declared capacity exceeds `u64::MAX`.
    LengthTooLarge(String),
    /// A token in a variable list that is neither a declaration nor a
    /// terminator.
    VariableToken(String),
    /// A `loop` with no count before the line ended.
    MissingLoopCount,
    /// A `loop` whose body keyword is neither `read` nor `write`.
    LoopCommand(String),
    /// A `loop` with no body at all.
    MissingLoopBody,
    /// A `loopline` with no object identifier before the line ended.
    MissingLoopLineObject,
}

/// The ghost image of a `ParseError`.
pub enum ParseErrorModel {
    Unrecognized(Seq<char>),
    VariableType(Seq<char>),
    LengthTooLarge(Seq<char>),
    VariableToken(Seq<char>),
    MissingLoopCount,
    LoopCommand(Seq<char>),
    MissingLoopBody,
    MissingLoopLineObject,
}

impl View for ParseError {
    type V = ParseErrorModel;

    open spec fn view(&self) -> ParseErrorModel {
        match self {
            ParseError::Unrecognized(t) => ParseErrorModel::Unrecognized(t@),
            ParseError::VariableType(t) => ParseErrorModel::VariableType(t@),
            ParseError::LengthTooLarge(t) => ParseErrorModel::LengthTooLarge(t@),
            ParseError::VariableToken(t) => ParseErrorModel::VariableToken(t@),
            ParseError::MissingLoopCount => ParseErrorModel::MissingLoopCount,
            ParseError::LoopCommand(t) => ParseErrorModel::LoopCommand(t@),
            ParseError::MissingLoopBody => ParseErrorModel::MissingLoopBody,
            ParseError::MissingLoopLineObject => ParseErrorModel::MissingLoopLineObject,
        }
    }
}

// ---------------------------------------------------------------------------
// The token stream.
//
// Every newline is promoted to a token of its own, and a blank line that
// carries only whitespace is normalized so that it always appears as two
// adjacent newline tokens after splitting on single spaces.
// ---------------------------------------------------------------------------

/// The nonempty segments of a split, in order: a whitespace-delimited
/// split yields no empty tokens.
pub open spec fn drop_empty(ts: Seq<Seq<char>>) -> Seq<Seq<char>>
    decreases ts.len(),
{
    if ts.len() == 0 {
        ts
    } else if ts.last().len() != 0 {
        drop_empty(ts.drop_last()).push(ts.last())
    } else {
        drop_empty(ts.drop_last())
    }
}

/// The whitespace-delimited token stream: newlines promoted to tokens of
/// their own, blank lines normalized, and empty fragments dropped.
pub open spec fn spec_tokenize(s: Seq<char>) -> Seq<Seq<char>> {
    drop_empty(split_char(replace_seq(replace_seq(s, "\n"@, " \n "@), "\n  \n"@, "\n \n"@), ' '))
}

/// Normalizes raw stub text into its token stream.
pub fn tokenize(generator: &str) -> (r: Vec<String>)
    ensures
        r@.map_values(|t: String| t@) == spec_tokenize(generator@),
{
    let v = chars_vec(generator);
    let pat1 = chars_vec("\n");
    let rep1 = chars_vec(" \n ");
    let pat2 = chars_vec("\n  \n");
    let rep2 = chars_vec("\n \n");
    proof {
        reveal_strlit("\n");
        assert(pat1@.len() == 1);
    }
    let first = replace_chars(&v, &pat1, &rep1);
    proof {
        reveal_strlit("\n  \n");
        assert(pat2@.len() == 4);
    }
    let second = replace_chars(&first, &pat2, &rep2);
    let parts = split_chars_exec(&second, ' ');
    let n = parts.len();
    let mut out: Vec<String> = Vec::new();
    let mut i: usize = 0;
    let ghost raw = split_char(second@, ' ');
    proof {
        assert(parts@.map_values(|p: Vec<char>| p@) =~= raw);
        assert(raw.take(0) =~= Seq::<Seq<char>>::empty());
        assert(out@.map_values(|t: String| t@) =~= drop_empty(raw.take(0)));
    }
    while i < n
        invariant
            n == parts.len(),
            0 <= i <= n,
            parts@.map_values(|p: Vec<char>| p@) == raw,
            out@.map_values(|t: String| t@) == drop_empty(raw.take(i as int)),
        decreases n - i,
    {
        proof {
            assert(raw.take(i + 1).drop_last() =~= raw.take(i as int));
            assert(raw.take(i + 1).last() == raw[i as int]);
            assert(raw[i as int] == parts@.map_values(|p: Vec<char>| p@)[i as int]);
            assert(raw[i as int] == parts@[i as int]@);
        }
        if parts[i].len() > 0 {
            let ghost old_map = out@.map_values(|t: String| t@);
            let s = chars_to_string(&parts[i]);
            out.push(s);
            proof {
                assert(out@.map_values(|t: String| t@) =~= old_map.push(parts@[i as int]@));
                assert(drop_empty(raw.take(i + 1)) == drop_empty(raw.take(i as int)).push(
                    raw[i as int],
                ));
            }
        } else {
            proof {
                assert(drop_empty(raw.take(i + 1)) == drop_empty(raw.take(i as int)));
            }
        }
        i = i + 1;
    }
    proof {
        assert(raw.take(n as int) =~= raw);
        assert(spec_tokenize(generator@) == drop_empty(raw));
    }
    out
}

// ---------------------------------------------------------------------------
// The mathematical parser. Every function takes the token stream and a
// cursor and says what is consumed and what comes out.
// ---------------------------------------------------------------------------

/// The cursor clamped into `[lo, hi]`; the parsing functions below always
/// return a cursor in that interval, so the clamp is the identity on them.
pub open spec fn step_pos(p: int, lo: int, hi: int) -> int {
    if p < lo {
        lo
    } else if p > hi {
        hi
    } else {
        p
    }
}

/// Cursor after skipping past the next newline token.
pub open spec fn sp_skip_line(t: Seq<Seq<char>>, pos: int) -> int
    decreases t.len() - pos,
{
    if pos >= t.len() {
        pos
    } else if t[pos] == "\n"@ {
        pos + 1
    } else {
        sp_skip_line(t, pos + 1)
    }
}

pub proof fn lemma_skip_line_range(t: Seq<Seq<char>>, pos: int)
    requires
        0 <= pos <= t.len(),
    ensures
        pos <= sp_skip_line(t, pos) <= t.len(),
    decreases t.len() - pos,
{
    if pos < t.len() && t[pos] != "\n"@ {
        lemma_skip_line_range(t, pos + 1);
    }
}

/// The tokens of the current line, and the cursor after its newline.
pub open spec fn sp_line_parts(t: Seq<Seq<char>>, pos: int) -> (Seq<Seq<char>>, int)
    decreases t.len() - pos,
{
    if pos >= t.len() {
        (Seq::<Seq<char>>::empty(), pos)
    } else if t[pos] == "\n"@ {
        (Seq::<Seq<char>>::empty(), pos + 1)
    } else {
        let (ps, p) = sp_line_parts(t, pos + 1);
        (seq![t[pos]] + ps, p)
    }
}

pub proof fn lemma_line_parts_range(t: Seq<Seq<char>>, pos: int)
    requires
        0 <= pos <= t.len(),
    ensures
        pos <= sp_line_parts(t, pos).1 <= t.len(),
    decreases t.len() - pos,
{
    if pos < t.len() && t[pos] != "\n"@ {
        lemma_line_parts_range(t, pos + 1);
    }
}

/// One line read to its end, tokens joined with single spaces.
pub open spec fn sp_read_line(t: Seq<Seq<char>>, pos: int) -> (Seq<char>, int) {
    let (ps, p) = sp_line_parts(t, pos);
    (join_with(ps, ' '), p)
}

/// The pieces of a text block: it ends at a blank line (two adjacent
/// newline tokens) or at the end of the stream; a lone newline survives as
/// a prefix of the following token.
pub open spec fn sp_text_parts(t: Seq<Seq<char>>, pos: int) -> (Seq<Seq<char>>, int)
    decreases t.len() - pos,
{
    if pos >= t.len() {
        (Seq::<Seq<char>>::empty(), pos)
    } else if t[pos] == "\n"@ {
        if pos + 1 >= t.len() {
            (Seq::<Seq<char>>::empty(), pos + 1)
        } else if t[pos + 1] == "\n"@ {
            (Seq::<Seq<char>>::empty(), pos + 2)
        } else {
            let (ps, p) = sp_text_parts(t, pos + 2);
            (seq!["\n"@ + t[pos + 1]] + ps, p)
        }
    } else {
        let (ps, p) = sp_text_parts(t, pos + 1);
        (seq![t[pos]] + ps, p)
    }
}

pub proof fn lemma_text_parts_range(t: Seq<Seq<char>>, pos: int)
    requires
        0 <= pos <= t.len(),
    ensures
        pos <= sp_text_parts(t, pos).1 <= t.len(),
    decreases t.len() - pos,
{
    if pos >= t.len() {
    } else if t[pos] == "\n"@ {
        if pos + 1 < t.len() && t[pos + 1] != "\n"@ {
            lemma_text_parts_range(t, pos + 2);
        }
    } else {
        lemma_text_parts_range(t, pos + 1);
    }
}

/// A text block: its pieces joined with single spaces.
pub open spec fn sp_text_block(t: Seq<Seq<char>>, pos: int) -> (Seq<char>, int) {
    let (ps, p) = sp_text_parts(t, pos);
    (join_with(ps, ' '), p)
}

// ---------------------------------------------------------------------------
// Variable declarations.
// ---------------------------------------------------------------------------

/// Length of the run of decimal digits in `s` starting at `i`.
pub open spec fn digit_run(s: Seq<char>, i: int) -> int
    decreases s.len() - i,
{
    if 0 <= i < s.len() && is_digit_char(s[i]) {
        1 + digit_run(s, i + 1)
    } else {
        0
    }
}

/// A length-bounded type pattern (`word(N)` or `string(N)`) read at
/// position `i`: the kind and the digits of `N`.
pub open spec fn pat_at(s: Seq<char>, i: int) -> Option<(VarType, Seq<char>)> {
    if matches_at(s, i, "word("@) {
        let j = i + "word("@.len();
        let d = digit_run(s, j);
        if d >= 1 && j + d < s.len() && s[j + d] == ')' {
            Some((VarType::Word, s.subrange(j, j + d)))
        } else {
            None
        }
    } else if matches_at(s, i, "string("@) {
        let j = i + "string("@.len();
        let d = digit_run(s, j);
        if d >= 1 && j + d < s.len() && s[j + d] == ')' {
            Some((VarType::Str, s.subrange(j, j + d)))
        } else {
            None
        }
    } else {
        None
    }
}

/// The leftmost length-bounded type pattern in `s` at or after `i`.
pub open spec fn find_pat(s: Seq<char>, i: int) -> Option<(VarType, Seq<char>)>
    decreases s.len() - i,
{
    if i >= s.len() {
        None
    } else if pat_at(s, i) is Some {
        pat_at(s, i)
    } else {
        find_pat(s, i + 1)
    }
}

/// One variable declaration token (`name:type`) read into a variable.
/// The token must contain a colon.
pub open spec fn sp_variable(token: Seq<char>) -> Result<VarModel, ParseErrorModel> {
    let segs = split_char(token, ':');
    let name = segs[0];
    let ty = segs[1];
    if ty == "int"@ {
        Ok(VarModel { name, var_type: VarType::Int, max_length: None })
    } else if ty == "float"@ {
        Ok(VarModel { name, var_type: VarType::Float, max_length: None })
    } else if ty == "long"@ {
        Ok(VarModel { name, var_type: VarType::Long, max_length: None })
    } else if ty == "bool"@ {
        Ok(VarModel { name, var_type: VarType::Bool, max_length: None })
    } else {
        match find_pat(ty, 0) {
            None => Err(ParseErrorModel::VariableType(token)),
            Some((vt, digits)) => if dec_val(digits) > u64::MAX {
                Err(ParseErrorModel::LengthTooLarge(token))
            } else {
                Ok(VarModel { name, var_type: vt, max_length: Some(dec_val(digits) as u64) })
            },
        }
    }
}

/// A variable list: declarations until the newline that ends the line;
/// blank tokens are skipped; any other token is an error.
pub open spec fn sp_variable_list(t: Seq<Seq<char>>, pos: int) -> Result<
    (Seq<VarModel>, int),
    ParseErrorModel,
>
    decreases t.len() - pos,
{
    if pos >= t.len() {
        Ok((Seq::<VarModel>::empty(), pos))
    } else {
        let tok = t[pos];
        if contains_char(tok, ':') {
            match sp_variable(tok) {
                Err(e) => Err(e),
                Ok(v) => match sp_variable_list(t, pos + 1) {
                    Err(e) => Err(e),
                    Ok((vs, p)) => Ok((seq![v] + vs, p)),
                },
            }
        } else if tok.len() == 0 {
            sp_variable_list(t, pos + 1)
        } else if tok == "\n"@ {
            Ok((Seq::<VarModel>::empty(), pos + 1))
        } else {
            Err(ParseErrorModel::VariableToken(tok))
        }
    }
}

pub proof fn lemma_variable_list_range(t: Seq<Seq<char>>, pos: int)
    requires
        0 <= pos <= t.len(),
    ensures
        match sp_variable_list(t, pos) {
            Ok((vs, p)) => pos <= p <= t.len(),
            Err(_) => true,
        },
    decreases t.len() - pos,
{
    if pos < t.len() {
        let tok = t[pos];
        if contains_char(tok, ':') || tok.len() == 0 {
            lemma_variable_list_range(t, pos + 1);
        }
    }
}

// ---------------------------------------------------------------------------
// Commands.
// ---------------------------------------------------------------------------

/// The body of a `loop`: one `read` or `write` command, sought past the
/// newline that ends the count's line.
pub open spec fn sp_read_or_write(t: Seq<Seq<char>>, pos: int) -> Result<
    (CmdModel, int),
    ParseErrorModel,
>
    decreases t.len() - pos,
{
    if pos >= t.len() {
        Err(ParseErrorModel::MissingLoopBody)
    } else if t[pos] == "\n"@ || t[pos].len() == 0 {
        sp_read_or_write(t, pos + 1)
    } else if t[pos] == "read"@ {
        match sp_variable_list(t, pos + 1) {
            Err(e) => Err(e),
            Ok((vs, p)) => Ok((CmdModel::Read(vs), p)),
        }
    } else if t[pos] == "write"@ {
        let (txt, p) = sp_text_block(t, pos + 1);
        Ok((CmdModel::Write(txt), p))
    } else {
        Err(ParseErrorModel::LoopCommand(t[pos]))
    }
}

/// A `loop`: its count token, then one nested `read` or `write`.
pub open spec fn sp_loop(t: Seq<Seq<char>>, pos: int) -> Result<(CmdModel, int), ParseErrorModel> {
    if pos >= t.len() || t[pos] == "\n"@ {
        Err(ParseErrorModel::MissingLoopCount)
    } else {
        match sp_read_or_write(t, pos + 1) {
            Err(e) => Err(e),
            Ok((c, p)) => Ok((CmdModel::Loop { count: t[pos], command: Box::new(c) }, p)),
        }
    }
}

/// A `loopline`: the iterated object's token, then a variable list.
pub open spec fn sp_loopline(t: Seq<Seq<char>>, pos: int) -> Result<
    (CmdModel, int),
    ParseErrorModel,
> {
    if pos >= t.len() || t[pos] == "\n"@ {
        Err(ParseErrorModel::MissingLoopLineObject)
    } else {
        match sp_variable_list(t, pos + 1) {
            Err(e) => Err(e),
            Ok((vs, p)) => Ok((CmdModel::LoopLine { object: t[pos], variables: vs }, p)),
        }
    }
}

// ---------------------------------------------------------------------------
// Input comments and metadata.
// ---------------------------------------------------------------------------

/// The comment lines of an `INPUT` section: a line whose first token ends
/// with a colon documents that variable; any other line is skipped; a blank
/// line ends the section.
pub open spec fn sp_comment_lines(t: Seq<Seq<char>>, pos: int) -> (Seq<InputCommentModel>, int)
    decreases t.len() - pos,
{
    if pos >= t.len() {
        (Seq::<InputCommentModel>::empty(), pos)
    } else {
        let tok = t[pos];
        if tok == "\n"@ {
            (Seq::<InputCommentModel>::empty(), pos + 1)
        } else if tok.len() > 0 && tok.last() == ':' {
            let (txt, p1) = sp_read_line(t, pos + 1);
            let (cs, p2) = sp_comment_lines(t, step_pos(p1, pos + 1, t.len() as int));
            (
                seq![
                    InputCommentModel { variable_name: tok.drop_last(), comment_text: txt },
                ] + cs,
                p2,
            )
        } else {
            let p1 = sp_skip_line(t, pos + 1);
            sp_comment_lines(t, step_pos(p1, pos + 1, t.len() as int))
        }
    }
}

/// An `INPUT` section: the rest of the keyword's line is skipped, then the
/// comment lines are read.
pub open spec fn sp_input_comment(t: Seq<Seq<char>>, pos: int) -> (Seq<InputCommentModel>, int) {
    let p0 = sp_skip_line(t, pos);
    sp_comment_lines(t, step_pos(p0, pos, t.len() as int))
}

/// A `STATEMENT` section: the rest of the keyword's line is skipped, then a
/// text block is read.
pub open spec fn sp_statement(t: Seq<Seq<char>>, pos: int) -> (Seq<char>, int) {
    let p0 = sp_skip_line(t, pos);
    sp_text_block(t, step_pos(p0, pos, t.len() as int))
}

// ---------------------------------------------------------------------------
// The top-level dispatch.
// ---------------------------------------------------------------------------

/// Folds the whole token stream into a stub, starting from `acc`.
pub open spec fn sp_parse(t: Seq<Seq<char>>, pos: int, acc: StubModel) -> Result<
    StubModel,
    ParseErrorModel,
>
    decreases t.len() - pos,
{
    if pos >= t.len() {
        Ok(acc)
    } else {
        let tok = t[pos];
        let hi = t.len() as int;
        if tok == "read"@ {
            match sp_variable_list(t, pos + 1) {
                Err(e) => Err(e),
                Ok((vs, p)) => sp_parse(
                    t,
                    step_pos(p, pos + 1, hi),
                    StubModel { commands: acc.commands.push(CmdModel::Read(vs)), ..acc },
                ),
            }
        } else if tok == "write"@ {
            let (txt, p) = sp_text_block(t, pos + 1);
            sp_parse(
                t,
                step_pos(p, pos + 1, hi),
                StubModel { commands: acc.commands.push(CmdModel::Write(txt)), ..acc },
            )
        } else if tok == "loop"@ {
            match sp_loop(t, pos + 1) {
                Err(e) => Err(e),
                Ok((c, p)) => sp_parse(
                    t,
                    step_pos(p, pos + 1, hi),
                    StubModel { commands: acc.commands.push(c), ..acc },
                ),
            }
        } else if tok == "loopline"@ {
            match sp_loopline(t, pos + 1) {
                Err(e) => Err(e),
                Ok((c, p)) => sp_parse(
                    t,
                    step_pos(p, pos + 1, hi),
                    StubModel { commands: acc.commands.push(c), ..acc },
                ),
            }
        } else if tok == "OUTPUT"@ {
            let (txt, p) = sp_text_block(t, pos + 1);
            sp_parse(t, step_pos(p, pos + 1, hi), StubModel { output_comment: txt, ..acc })
        } else if tok == "INPUT"@ {
            let (cs, p) = sp_input_comment(t, pos + 1);
            sp_parse(
                t,
                step_pos(p, pos + 1, hi),
                StubModel { input_comments: acc.input_comments + cs, ..acc },
            )
        } else if tok == "STATEMENT"@ {
            let (txt, p) = sp_statement(t, pos + 1);
            sp_parse(t, step_pos(p, pos + 1, hi), StubModel { statement: txt, ..acc })
        } else if tok == "\n"@ || tok.len() == 0 {
            sp_parse(t, pos + 1, acc)
        } else {
            Err(ParseErrorModel::Unrecognized(tok))
        }
    }
}

/// What parsing a whole stub description yields.
pub open spec fn sp_parse_stub(s: Seq<char>) -> Result<StubModel, ParseErrorModel> {
    sp_parse(spec_tokenize(s), 0, StubModel::empty())
}

/// Maps an executable parse result onto its ghost image.
pub open spec fn result_view(r: Result<Stub, ParseError>) -> Result<StubModel, ParseErrorModel> {
    match r {
        Ok(stub) => Ok(stub@),
        Err(e) => Err(e@),
    }
}

/// Parses a whole stub description.
pub fn parse_generator_stub(generator: String) -> (r: Result<Stub, ParseError>)
    ensures
        result_view(r) == sp_parse_stub(generator@),
{
    let tokens = tokenize(generator.as_str());
    let mut parser = Parser::new(tokens);
    parser.parse()
}

// ---------------------------------------------------------------------------
// The executable parser: a cursor over the owned token stream.
// ---------------------------------------------------------------------------

pub struct Parser {
    pub tokens: Vec<String>,
    pub pos: usize,
}

/// The token stream a parser walks, as sequences of characters.
pub open spec fn toks(p: Parser) -> Seq<Seq<char>> {
    p.tokens@.map_values(|t: String| t@)
}

impl Parser {
    pub open spec fn wf(self) -> bool {
        self.pos <= self.tokens.len()
    }

    pub fn new(tokens: Vec<String>) -> (r: Parser)
        ensures
            r.tokens == tokens,
            r.pos == 0,
            r.wf(),
    {
        Parser { tokens, pos: 0 }
    }

    /// Folds the remaining tokens into `stub`'s fields.
    pub fn parse(&mut self) -> (r: Result<Stub, ParseError>)
        requires
            old(self).wf(),
            old(self).pos == 0,
        ensures
            result_view(r) == sp_parse(toks(*old(self)), 0, StubModel::empty()),
    {
        let ghost t = toks(*old(self));
        let mut stub = Stub::new();
        loop
            invariant
                self.wf(),
                self.tokens == old(self).tokens,
                toks(*self) == t,
                t == toks(*old(self)),
                sp_parse(t, 0, StubModel::empty()) == sp_parse(t, self.pos as int, stub@),
            decreases self.tokens.len() - self.pos,
        {
            if self.pos >= self.tokens.len() {
                return Ok(stub);
            }
            let ghost pos = self.pos as int;
            let tok = chars_vec(self.tokens[self.pos].as_str());
            self.pos = self.pos + 1;
            if chars_eq(&tok, &chars_vec("read")) {
                match self.parse_read() {
                    Ok(cmd) => {
                        let ghost old_stub = stub@;
                        stub.commands.push(cmd);
                        proof {
                            assert(stub@.commands =~= old_stub.commands.push(
                                CmdModel::Read(
                                    match sp_variable_list(t, pos + 1) {
                                        Ok((vs, _)) => vs,
                                        Err(_) => Seq::<VarModel>::empty(),
                                    },
                                ),
                            ));
                            lemma_variable_list_range(t, pos + 1);
                        }
                    },
                    Err(e) => {
                        return Err(e);
                    },
                }
            } else if chars_eq(&tok, &chars_vec("write")) {
                let cmd = self.parse_write();
                let ghost old_stub = stub@;
                stub.commands.push(cmd);
                proof {
                    assert(stub@.commands =~= old_stub.commands.push(
                        CmdModel::Write(sp_text_block(t, pos + 1).0),
                    ));
                    lemma_text_parts_range(t, pos + 1);
                }
            } else if chars_eq(&tok, &chars_vec("loop")) {
                match self.parse_loop() {
                    Ok(cmd) => {
                        let ghost old_stub = stub@;
                        stub.commands.push(cmd);
                        proof {
                            assert(stub@.commands =~= old_stub.commands.push(cmd@));
                        }
                    },
                    Err(e) => {
                        return Err(e);
                    },
                }
            } else if chars_eq(&tok, &chars_vec("loopline")) {
                match self.parse_loopline() {
                    Ok(cmd) => {
                        let ghost old_stub = stub@;
                        stub.commands.push(cmd);
                        proof {
                            assert(stub@.commands =~= old_stub.commands.push(cmd@));
                        }
                    },
                    Err(e) => {
                        return Err(e);
                    },
                }
            } else if chars_eq(&tok, &chars_vec("OUTPUT")) {
                let txt = self.parse_output_comment();
                stub.output_comment = txt;
                proof {
                    lemma_text_parts_range(t, pos + 1);
                }
            } else if chars_eq(&tok, &chars_vec("INPUT")) {
                let mut comments = self.parse_input_comment();
                let ghost old_stub = stub@;
                stub.input_comments.append(&mut comments);
                proof {
                    assert(stub@.input_comments =~= old_stub.input_comments + sp_input_comment(
                        t,
                        pos + 1,
                    ).0);
                }
            } else if chars_eq(&tok, &chars_vec("STATEMENT")) {
                let txt = self.parse_statement();
                stub.statement = txt;
            } else if chars_eq(&tok, &chars_vec("\n")) || tok.len() == 0 {
            } else {
                let token = chars_to_string(&tok);
                return Err(ParseError::Unrecognized(token));
            }
        }
    }

    /// A `read` command: its variable list.
    pub fn parse_read(&mut self) -> (r: Result<Cmd, ParseError>)
        requires
            old(self).wf(),
        ensures
            final(self).wf(),
            final(self).tokens == old(self).tokens,
            old(self).pos <= final(self).pos,
            match r {
                Ok(cmd) => sp_variable_list(toks(*old(self)), old(self).pos as int) == Ok::<
                    (Seq<VarModel>, int),
                    ParseErrorModel,
                >(
                    (
                        match cmd@ {
                            CmdModel::Read(vs) => vs,
                            _ => Seq::<VarModel>::empty(),
                        },
                        final(self).pos as int,
                    ),
                ) && cmd@ is Read,
                Err(e) => sp_variable_list(toks(*old(self)), old(self).pos as int) == Err::<
                    (Seq<VarModel>, int),
                    ParseErrorModel,
                >(e@),
            },
    {
        match self.parse_variable_list() {
            Ok(vars) => {
                let cmd = Cmd::Read(vars);
                proof {
                    assert(cmd@ is Read);
                }
                Ok(cmd)
            },
            Err(e) => Err(e),
        }
    }

    /// A `write` command: its text block.
    pub fn parse_write(&mut self) -> (r: Cmd)
        requires
            old(self).wf(),
        ensures
            final(self).wf(),
            final(self).tokens == old(self).tokens,
            old(self).pos <= final(self).pos,
            r@ == CmdModel::Write(sp_text_block(toks(*old(self)), old(self).pos as int).0),
            final(self).pos as int == sp_text_block(toks(*old(self)), old(self).pos as int).1,
    {
        let txt = self.parse_text_block();
        Cmd::Write(txt)
    }

    /// A `loop` command: count token, then one nested `read` or `write`.
    pub fn parse_loop(&mut self) -> (r: Result<Cmd, ParseError>)
        requires
            old(self).wf(),
        ensures
            final(self).wf(),
            final(self).tokens == old(self).tokens,
            old(self).pos <= final(self).pos,
            match r {
                Ok(cmd) => sp_loop(toks(*old(self)), old(self).pos as int) == Ok::<
                    (CmdModel, int),
                    ParseErrorModel,
                >((cmd@, final(self).pos as int)),
                Err(e) => sp_loop(toks(*old(self)), old(self).pos as int) == Err::<
                    (CmdModel, int),
                    ParseErrorModel,
                >(e@),
            },
    {
        let ghost t = toks(*old(self));
        let ghost pos0 = old(self).pos as int;
        if self.pos >= self.tokens.len() {
            return Err(ParseError::MissingLoopCount);
        }
        let count_tok = chars_vec(self.tokens[self.pos].as_str());
        if chars_eq(&count_tok, &chars_vec("\n")) {
            return Err(ParseError::MissingLoopCount);
        }
        let count = chars_to_string(&count_tok);
        self.pos = self.pos + 1;
        match self.parse_read_or_write() {
            Ok(cmd) => {
                let r = Cmd::Loop { count, command: Box::new(cmd) };
                proof {
                    assert(r@ == CmdModel::Loop { count: t[pos0], command: Box::new(cmd@) });
                }
                Ok(r)
            },
            Err(e) => Err(e),
        }
    }

    /// A `loopline` command: object token, then its variable list.
    pub fn parse_loopline(&mut self) -> (r: Result<Cmd, ParseError>)
        requires
            old(self).wf(),
        ensures
            final(self).wf(),
            final(self).tokens == old(self).tokens,
            old(self).pos <= final(self).pos,
            match r {
                Ok(cmd) => sp_loopline(toks(*old(self)), old(self).pos as int) == Ok::<
                    (CmdModel, int),
                    ParseErrorModel,
                >((cmd@, final(self).pos as int)),
                Err(e) => sp_loopline(toks(*old(self)), old(self).pos as int) == Err::<
                    (CmdModel, int),
                    ParseErrorModel,
                >(e@),
            },
    {
        let ghost t = toks(*old(self));
        let ghost pos0 = old(self).pos as int;
        if self.pos >= self.tokens.len() {
            return Err(ParseError::MissingLoopLineObject);
        }
        let object_tok = chars_vec(self.tokens[self.pos].as_str());
        if chars_eq(&object_tok, &chars_vec("\n")) {
            return Err(ParseError::MissingLoopLineObject);
        }
        let object = chars_to_string(&object_tok);
        self.pos = self.pos + 1;
        match self.parse_variable_list() {
            Ok(vars) => {
                let r = Cmd::LoopLine { object, variables: vars };
                proof {
                    assert(r@ == CmdModel::LoopLine {
                        object: t[pos0],
                        variables: vars@.map_values(|v: Var| v@),
                    });
                }
                Ok(r)
            },
            Err(e) => Err(e),
        }
    }

    /// The body of a `loop`.
    pub fn parse_read_or_write(&mut self) -> (r: Result<Cmd, ParseError>)
        requires
            old(self).wf(),
        ensures
            final(self).wf(),
            final(self).tokens == old(self).tokens,
            old(self).pos <= final(self).pos,
            match r {
                Ok(cmd) => sp_read_or_write(toks(*old(self)), old(self).pos as int) == Ok::<
                    (CmdModel, int),
                    ParseErrorModel,
                >((cmd@, final(self).pos as int)),
                Err(e) => sp_read_or_write(toks(*old(self)), old(self).pos as int) == Err::<
                    (CmdModel, int),
                    ParseErrorModel,
                >(e@),
            },
    {
        let ghost t = toks(*old(self));
        let ghost pos0 = old(self).pos as int;
        loop
            invariant
                self.wf(),
                self.tokens == old(self).tokens,
                toks(*self) == t,
                t == toks(*old(self)),
                pos0 == old(self).pos as int,
                pos0 <= self.pos as int,
                sp_read_or_write(t, pos0) == sp_read_or_write(t, self.pos as int),
            decreases self.tokens.len() - self.pos,
        {
            if self.pos >= self.tokens.len() {
                return Err(ParseError::MissingLoopBody);
            }
            let tok = chars_vec(self.tokens[self.pos].as_str());
            if chars_eq(&tok, &chars_vec("\n")) || tok.len() == 0 {
                self.pos = self.pos + 1;
            } else if chars_eq(&tok, &chars_vec("read")) {
                self.pos = self.pos + 1;
                return self.parse_read();
            } else if chars_eq(&tok, &chars_vec("write")) {
                self.pos = self.pos + 1;
                let cmd = self.parse_write();
                return Ok(cmd);
            } else {
                let token = chars_to_string(&tok);
                return Err(ParseError::LoopCommand(token));
            }
        }
    }

    /// The variables declared on the current line.
    pub fn parse_variable_list(&mut self) -> (r: Result<Vec<Var>, ParseError>)
        requires
            old(self).wf(),
        ensures
            final(self).wf(),
            final(self).tokens == old(self).tokens,
            old(self).pos <= final(self).pos,
            match r {
                Ok(vars) => sp_variable_list(toks(*old(self)), old(self).pos as int) == Ok::<
                    (Seq<VarModel>, int),
                    ParseErrorModel,
                >((vars@.map_values(|v: Var| v@), final(self).pos as int)),
                Err(e) => sp_variable_list(toks(*old(self)), old(self).pos as int) == Err::<
                    (Seq<VarModel>, int),
                    ParseErrorModel,
                >(e@),
            },
    {
        let ghost t = toks(*old(self));
        let ghost pos0 = old(self).pos as int;
        let mut vars: Vec<Var> = Vec::new();
        proof {
            assert(vars@.map_values(|v: Var| v@) =~= Seq::<VarModel>::empty());
        }
        loop
            invariant
                self.wf(),
                self.tokens == old(self).tokens,
                toks(*self) == t,
                t == toks(*old(self)),
                pos0 == old(self).pos as int,
                pos0 <= self.pos as int,
                sp_variable_list(t, pos0) == (match sp_variable_list(t, self.pos as int) {
                    Ok((vs, p)) => Ok::<(Seq<VarModel>, int), ParseErrorModel>(
                        (vars@.map_values(|v: Var| v@) + vs, p),
                    ),
                    Err(e) => Err::<(Seq<VarModel>, int), ParseErrorModel>(e),
                }),
            decreases self.tokens.len() - self.pos,
        {
            if self.pos >= self.tokens.len() {
                proof {
                    assert(vars@.map_values(|v: Var| v@) + Seq::<VarModel>::empty()
                        =~= vars@.map_values(|v: Var| v@));
                }
                return Ok(vars);
            }
            let tok = chars_vec(self.tokens[self.pos].as_str());
            if contains_char_exec(&tok, ':') {
                match Self::parse_variable(&self.tokens[self.pos]) {
                    Ok(var) => {
                        let ghost old_vars = vars@.map_values(|v: Var| v@);
                        vars.push(var);
                        self.pos = self.pos + 1;
                        proof {
                            assert(vars@.map_values(|v: Var| v@) =~= old_vars.push(var@));
                            if sp_variable_list(t, self.pos as int) is Ok {
                                let (vs, p) = sp_variable_list(t, self.pos as int)->Ok_0;
                                assert(old_vars.push(var@) + vs =~= old_vars + (seq![var@] + vs));
                            }
                        }
                    },
                    Err(e) => {
                        return Err(e);
                    },
                }
            } else if tok.len() == 0 {
                self.pos = self.pos + 1;
            } else if chars_eq(&tok, &chars_vec("\n")) {
                self.pos = self.pos + 1;
                proof {
                    assert(vars@.map_values(|v: Var| v@) + Seq::<VarModel>::empty()
                        =~= vars@.map_values(|v: Var| v@));
                }
                return Ok(vars);
            } else {
                let token = chars_to_string(&tok);
                return Err(ParseError::VariableToken(token));
            }
        }
    }

    /// One `name:type` declaration token.
    pub fn parse_variable(token: &String) -> (r: Result<Var, ParseError>)
        requires
            contains_char(token@, ':'),
        ensures
            match r {
                Ok(var) => sp_variable(token@) == Ok::<VarModel, ParseErrorModel>(var@),
                Err(e) => sp_variable(token@) == Err::<VarModel, ParseErrorModel>(e@),
            },
    {
        let tc = chars_vec(token.as_str());
        let segs = split_chars_exec(&tc, ':');
        proof {
            lemma_split_char_two(token@, ':');
            assert(segs@.len() >= 2) by {
                assert(segs@.map_values(|p: Vec<char>| p@).len() == split_char(token@, ':').len());
            }
        }
        let name = chars_to_string(&segs[0]);
        let ty = &segs[1];
        proof {
            assert(segs@[0]@ == split_char(token@, ':')[0]);
            assert(segs@[1]@ == split_char(token@, ':')[1]);
        }
        if chars_eq(ty, &chars_vec("int")) {
            Ok(Var::new(name, VarType::Int))
        } else if chars_eq(ty, &chars_vec("float")) {
            Ok(Var::new(name, VarType::Float))
        } else if chars_eq(ty, &chars_vec("long")) {
            Ok(Var::new(name, VarType::Long))
        } else if chars_eq(ty, &chars_vec("bool")) {
            Ok(Var::new(name, VarType::Bool))
        } else {
            match Self::find_length_pattern(ty) {
                None => Err(ParseError::VariableType(token.clone())),
                Some((vt, digits)) => {
                    match parse_u64_dec(&digits) {
                        None => Err(ParseError::LengthTooLarge(token.clone())),
                        Some(n) => Ok(Var::new_length(name, vt, n)),
                    }
                },
            }
        }
    }

    /// The leftmost `word(N)` / `string(N)` pattern in a type token.
    fn find_length_pattern(ty: &Vec<char>) -> (r: Option<(VarType, Vec<char>)>)
        ensures
            match r {
                Some((vt, digits)) => find_pat(ty@, 0) == Some((vt, digits@)) && (forall|k: int|
                    0 <= k < digits@.len() ==> is_digit_char(#[trigger] digits@[k])),
                None => find_pat(ty@, 0) is None,
            },
    {
        let n = ty.len();
        let mut i: usize = 0;
        while i < n
            invariant
                n == ty.len(),
                0 <= i <= n,
                find_pat(ty@, 0) == find_pat(ty@, i as int),
            decreases n - i,
        {
            match Self::pattern_at(ty, i) {
                Some((vt, digits)) => {
                    return Some((vt, digits));
                },
                None => {},
            }
            i = i + 1;
        }
        None
    }

    /// The `word(N)` / `string(N)` pattern read at one position, if any.
    fn pattern_at(ty: &Vec<char>, i: usize) -> (r: Option<(VarType, Vec<char>)>)
        requires
            i <= ty@.len(),
        ensures
            match r {
                Some((vt, digits)) => pat_at(ty@, i as int) == Some((vt, digits@)) && (forall|
                    k: int,
                |
                    0 <= k < digits@.len() ==> is_digit_char(#[trigger] digits@[k])),
                None => pat_at(ty@, i as int) is None,
            },
    {
        let n = ty.len();
        let word_pat = chars_vec("word(");
        let string_pat = chars_vec("string(");
        proof {
            reveal_strlit("word(");
            reveal_strlit("string(");
        }
        if matches_at_exec(ty, i, &word_pat) {
            proof {
                assert(i + word_pat@.len() <= n);
            }
            let j = i + word_pat.len();
            let d = Self::digit_run_exec(ty, j);
            if d >= 1 && j + d < ty.len() && ty[j + d] == ')' {
                let digits = copy_range(ty, j, j + d);
                proof {
                    assert(forall|k: int|
                        0 <= k < digits@.len() ==> is_digit_char(#[trigger] digits@[k])) by {
                        assert(forall|k: int|
                            j <= k < j + d ==> is_digit_char(#[trigger] ty@[k]));
                    }
                }
                Some((VarType::Word, digits))
            } else {
                None
            }
        } else if matches_at_exec(ty, i, &string_pat) {
            proof {
                assert(i + string_pat@.len() <= n);
            }
            let j = i + string_pat.len();
            let d = Self::digit_run_exec(ty, j);
            if d >= 1 && j + d < ty.len() && ty[j + d] == ')' {
                let digits = copy_range(ty, j, j + d);
                proof {
                    assert(forall|k: int|
                        0 <= k < digits@.len() ==> is_digit_char(#[trigger] digits@[k])) by {
                        assert(forall|k: int|
                            j <= k < j + d ==> is_digit_char(#[trigger] ty@[k]));
                    }
                }
                Some((VarType::Str, digits))
            } else {
                None
            }
        } else {
            None
        }
    }

    /// Length of the run of decimal digits starting at `j`.
    fn digit_run_exec(v: &Vec<char>, j: usize) -> (d: usize)
        requires
            j <= v.len(),
        ensures
            j + d <= v.len(),
            d as int == digit_run(v@, j as int),
            forall|k: int| j <= k < j + d ==> is_digit_char(#[trigger] v@[k]),
    {
        let n = v.len();
        let mut k: usize = j;
        while k < n && '0' <= v[k] && v[k] <= '9'
            invariant
                j <= k <= n,
                n == v.len(),
                digit_run(v@, j as int) == (k - j) + digit_run(v@, k as int),
                forall|m: int| j <= m < k ==> is_digit_char(#[trigger] v@[m]),
            decreases n - k,
        {
            k = k + 1;
        }
        proof {
            if k < n {
                assert(digit_run(v@, k as int) == 0);
            }
        }
        k - j
    }

    /// An `OUTPUT` section: its text block.
    pub fn parse_output_comment(&mut self) -> (r: String)
        requires
            old(self).wf(),
        ensures
            final(self).wf(),
            final(self).tokens == old(self).tokens,
            old(self).pos <= final(self).pos,
            r@ == sp_text_block(toks(*old(self)), old(self).pos as int).0,
            final(self).pos as int == sp_text_block(toks(*old(self)), old(self).pos as int).1,
    {
        self.parse_text_block()
    }

    /// An `INPUT` section: its comment lines.
    pub fn parse_input_comment(&mut self) -> (r: Vec<InputComment>)
        requires
            old(self).wf(),
        ensures
            final(self).wf(),
            final(self).tokens == old(self).tokens,
            old(self).pos <= final(self).pos,
            r@.map_values(|c: InputComment| c@) == sp_input_comment(
                toks(*old(self)),
                old(self).pos as int,
            ).0,
            final(self).pos as int == sp_input_comment(toks(*old(self)), old(self).pos as int).1,
    {
        let ghost t = toks(*old(self));
        let ghost pos0 = old(self).pos as int;
        self.skip_to_next_line();
        proof {
            lemma_skip_line_range(t, pos0);
            assert(self.pos as int == step_pos(sp_skip_line(t, pos0), pos0, t.len() as int));
        }
        let mut comments: Vec<InputComment> = Vec::new();
        proof {
            assert(comments@.map_values(|c: InputComment| c@) =~= Seq::<
                InputCommentModel,
            >::empty());
        }
        loop
            invariant
                self.wf(),
                self.tokens == old(self).tokens,
                toks(*self) == t,
                t == toks(*old(self)),
                pos0 == old(self).pos as int,
                pos0 <= self.pos as int,
                sp_input_comment(t, pos0) == ({
                    let (cs, p) = sp_comment_lines(t, self.pos as int);
                    (comments@.map_values(|c: InputComment| c@) + cs, p)
                }),
            decreases self.tokens.len() - self.pos,
        {
            if self.pos >= self.tokens.len() {
                proof {
                    assert(comments@.map_values(|c: InputComment| c@) + Seq::<
                        InputCommentModel,
                    >::empty() =~= comments@.map_values(|c: InputComment| c@));
                }
                return comments;
            }
            let ghost pos = self.pos as int;
            let tok = chars_vec(self.tokens[self.pos].as_str());
            if chars_eq(&tok, &chars_vec("\n")) {
                self.pos = self.pos + 1;
                proof {
                    assert(comments@.map_values(|c: InputComment| c@) + Seq::<
                        InputCommentModel,
                    >::empty() =~= comments@.map_values(|c: InputComment| c@));
                }
                return comments;
            } else if tok.len() > 0 && tok[tok.len() - 1] == ':' {
                let variable = copy_range(&tok, 0, tok.len() - 1);
                self.pos = self.pos + 1;
                let text = self.read_to_end_of_line();
                let ghost p1 = sp_read_line(t, pos + 1).1;
                proof {
                    lemma_line_parts_range(t, pos + 1);
                    assert(self.pos as int == step_pos(p1, pos + 1, t.len() as int));
                    assert(tok@.drop_last() =~= tok@.subrange(0, tok@.len() - 1));
                }
                let ghost old_comments = comments@.map_values(|c: InputComment| c@);
                let comment = InputComment::new(chars_to_string(&variable), text);
                comments.push(comment);
                proof {
                    assert(comments@.map_values(|c: InputComment| c@) =~= old_comments.push(
                        comment@,
                    ));
                    let (cs, p) = sp_comment_lines(t, self.pos as int);
                    assert(old_comments.push(comment@) + cs =~= old_comments + (seq![comment@]
                        + cs));
                }
            } else {
                self.pos = self.pos + 1;
                self.skip_to_next_line();
                proof {
                    lemma_skip_line_range(t, pos + 1);
                    assert(self.pos as int == step_pos(
                        sp_skip_line(t, pos + 1),
                        pos + 1,
                        t.len() as int,
                    ));
                }
            }
        }
    }

    /// A `STATEMENT` section: the keyword's line is skipped, then its text
    /// block is read.
    pub fn parse_statement(&mut self) -> (r: String)
        requires
            old(self).wf(),
        ensures
            final(self).wf(),
            final(self).tokens == old(self).tokens,
            old(self).pos <= final(self).pos,
            r@ == sp_statement(toks(*old(self)), old(self).pos as int).0,
            final(self).pos as int == sp_statement(toks(*old(self)), old(self).pos as int).1,
    {
        let ghost t = toks(*old(self));
        let ghost pos0 = old(self).pos as int;
        self.skip_to_next_line();
        proof {
            lemma_skip_line_range(t, pos0);
            assert(self.pos as int == step_pos(sp_skip_line(t, pos0), pos0, t.len() as int));
        }
        self.parse_text_block()
    }

    /// The tokens of the current line, joined with single spaces.
    pub fn read_to_end_of_line(&mut self) -> (r: String)
        requires
            old(self).wf(),
        ensures
            final(self).wf(),
            final(self).tokens == old(self).tokens,
            old(self).pos <= final(self).pos,
            r@ == sp_read_line(toks(*old(self)), old(self).pos as int).0,
            final(self).pos as int == sp_read_line(toks(*old(self)), old(self).pos as int).1,
    {
        let ghost t = toks(*old(self));
        let ghost pos0 = old(self).pos as int;
        let mut output: Vec<String> = Vec::new();
        proof {
            assert(output@.map_values(|p: String| p@) =~= Seq::<Seq<char>>::empty());
        }
        loop
            invariant
                self.wf(),
                self.tokens == old(self).tokens,
                toks(*self) == t,
                t == toks(*old(self)),
                pos0 == old(self).pos as int,
                pos0 <= self.pos as int,
                sp_line_parts(t, pos0) == ({
                    let (ps, p) = sp_line_parts(t, self.pos as int);
                    (output@.map_values(|p2: String| p2@) + ps, p)
                }),
            decreases self.tokens.len() - self.pos,
        {
            if self.pos >= self.tokens.len() {
                proof {
                    assert(output@.map_values(|p2: String| p2@) + Seq::<Seq<char>>::empty()
                        =~= output@.map_values(|p2: String| p2@));
                }
                return join_tokens(&output, ' ');
            }
            let tok = chars_vec(self.tokens[self.pos].as_str());
            if chars_eq(&tok, &chars_vec("\n")) {
                self.pos = self.pos + 1;
                proof {
                    assert(output@.map_values(|p2: String| p2@) + Seq::<Seq<char>>::empty()
                        =~= output@.map_values(|p2: String| p2@));
                }
                return join_tokens(&output, ' ');
            }
            let ghost old_parts = output@.map_values(|p2: String| p2@);
            let piece = chars_to_string(&tok);
            output.push(piece);
            self.pos = self.pos + 1;
            proof {
                assert(output@.map_values(|p2: String| p2@) =~= old_parts.push(tok@));
                let (ps, p) = sp_line_parts(t, self.pos as int);
                assert(old_parts.push(tok@) + ps =~= old_parts + (seq![tok@] + ps));
            }
        }
    }

    /// Advances the cursor past the next newline token.
    pub fn skip_to_next_line(&mut self)
        requires
            old(self).wf(),
        ensures
            final(self).wf(),
            final(self).tokens == old(self).tokens,
            old(self).pos <= final(self).pos,
            final(self).pos as int == sp_skip_line(toks(*old(self)), old(self).pos as int),
    {
        let ghost t = toks(*old(self));
        let ghost pos0 = old(self).pos as int;
        loop
            invariant
                self.wf(),
                self.tokens == old(self).tokens,
                toks(*self) == t,
                t == toks(*old(self)),
                pos0 == old(self).pos as int,
                pos0 <= self.pos as int,
                sp_skip_line(t, pos0) == sp_skip_line(t, self.pos as int),
            decreases self.tokens.len() - self.pos,
        {
            if self.pos >= self.tokens.len() {
                return ;
            }
            let tok = chars_vec(self.tokens[self.pos].as_str());
            self.pos = self.pos + 1;
            if chars_eq(&tok, &chars_vec("\n")) {
                return ;
            }
        }
    }

    /// A text block: pieces gathered until a blank line or the end of the
    /// stream, joined with single spaces.
    pub fn parse_text_block(&mut self) -> (r: String)
        requires
            old(self).wf(),
        ensures
            final(self).wf(),
            final(self).tokens == old(self).tokens,
            old(self).pos <= final(self).pos,
            r@ == sp_text_block(toks(*old(self)), old(self).pos as int).0,
            final(self).pos as int == sp_text_block(toks(*old(self)), old(self).pos as int).1,
    {
        let ghost t = toks(*old(self));
        let ghost pos0 = old(self).pos as int;
        let mut output: Vec<String> = Vec::new();
        proof {
            assert(output@.map_values(|p: String| p@) =~= Seq::<Seq<char>>::empty());
        }
        loop
            invariant
                self.wf(),
                self.tokens == old(self).tokens,
                toks(*self) == t,
                t == toks(*old(self)),
                pos0 == old(self).pos as int,
                pos0 <= self.pos as int,
                sp_text_parts(t, pos0) == ({
                    let (ps, p) = sp_text_parts(t, self.pos as int);
                    (output@.map_values(|p2: String| p2@) + ps, p)
                }),
            decreases self.tokens.len() - self.pos,
        {
            if self.pos >= self.tokens.len() {
                proof {
                    assert(output@.map_values(|p2: String| p2@) + Seq::<Seq<char>>::empty()
                        =~= output@.map_values(|p2: String| p2@));
                }
                return join_tokens(&output, ' ');
            }
            let ghost pos = self.pos as int;
            let tok = chars_vec(self.tokens[self.pos].as_str());
            if chars_eq(&tok, &chars_vec("\n")) {
                self.pos = self.pos + 1;
                if self.pos >= self.tokens.len() {
                    proof {
                        assert(output@.map_values(|p2: String| p2@) + Seq::<Seq<char>>::empty()
                            =~= output@.map_values(|p2: String| p2@));
                    }
                    return join_tokens(&output, ' ');
                }
                let next = chars_vec(self.tokens[self.pos].as_str());
                if chars_eq(&next, &chars_vec("\n")) {
                    self.pos = self.pos + 1;
                    proof {
                        assert(output@.map_values(|p2: String| p2@) + Seq::<Seq<char>>::empty()
                            =~= output@.map_values(|p2: String| p2@));
                    }
                    return join_tokens(&output, ' ');
                }
                let mut piece: Vec<char> = Vec::new();
                piece.push('\n');
                crate::text::push_all(&mut piece, &next);
                let ghost old_parts = output@.map_values(|p2: String| p2@);
                let piece_str = chars_to_string(&piece);
                output.push(piece_str);
                self.pos = self.pos + 1;
                proof {
                    assert(piece@ =~= "\n"@ + next@) by {
                        reveal_strlit("\n");
                        assert(seq!['\n'] =~= "\n"@);
                    }
                    assert(output@.map_values(|p2: String| p2@) =~= old_parts.push(
                        "\n"@ + t[pos + 1],
                    ));
                    let (ps, p) = sp_text_parts(t, self.pos as int);
                    assert(old_parts.push("\n"@ + t[pos + 1]) + ps =~= old_parts + (seq![
                        "\n"@ + t[pos + 1],
                    ] + ps));
                }
            } else {
                let ghost old_parts = output@.map_values(|p2: String| p2@);
                let piece = chars_to_string(&tok);
                output.push(piece);
                self.pos = self.pos + 1;
                proof {
                    assert(output@.map_values(|p2: String| p2@) =~= old_parts.push(tok@));
                    let (ps, p) = sp_text_parts(t, self.pos as int);
                    assert(old_parts.push(tok@) + ps =~= old_parts + (seq![tok@] + ps));
                }
            }
        }
    }
}

/// A sequence that holds a character splits on it into at least two
/// segments.
pub proof fn lemma_split_char_two(s: Seq<char>, sep: char)
    requires
        contains_char(s, sep),
    ensures
        split_char(s, sep).len() >= 2,
    decreases s.len(),
{
    if s.len() > 0 {
        if s[0] == sep {
            crate::text::lemma_split_char_nonempty(s.drop_first(), sep);
        } else {
            assert(contains_char(s.drop_first(), sep)) by {
                let i = choose|i: int| 0 <= i < s.len() && s[i] == sep;
                assert(s.drop_first()[i - 1] == sep);
            }
            lemma_split_char_two(s.drop_first(), sep);
        }
    }
}

} // verus!
