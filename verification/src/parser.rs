//! The policy DSL parser: a verified tokenizer and recursive-descent parser
//! from policy text to namespace configurations. The fuel-free spec mirrors
//! ([`spec_tokenize`], [`spec_parse_file`]) define exactly which texts parse
//! and to which configurations; the executable parser is proved to return
//! precisely that.
//!
//! Grammar: a file is a sequence of namespace blocks
//! `namespace IDENT { relation IDENT { rewrite EXPR? } ... }`, where an
//! expression is `this`, `computed_userset(relation: "R")`,
//! `tuple_to_userset(tupleset: "Rt", computed_userset: "Rc")`,
//! `union(e, e, ...)`, `intersection(e, e, ...)` (two or more operands each),
//! or `exclusion(e, e)`. Whitespace and `//` line comments are insignificant;
//! strings carry no escapes.

use vstd::prelude::*;
use crate::error::ZanzibarError;
use crate::model::{NamespaceConfig, Relation, RelationConfig, SpecExpr, SpecNamespaceConfig,
    SpecRelationConfig, UsersetExpression};
use crate::eval::configs_view;
use vstd::std_specs::iter::IteratorSpec;

verus! {

/// Relies on `String::push`: appends exactly the one character.
pub assume_specification[ String::push ](s: &mut String, c: char)
    ensures
        final(s)@ == old(s)@.push(c),
;

/// A lexical token of the DSL.
#[derive(Debug, PartialEq, Eq)]
pub enum Token {
    LBrace,
    RBrace,
    LParen,
    RParen,
    Comma,
    Colon,
    /// A quoted string literal, without its quotes.
    Str(String),
    /// An identifier or keyword.
    Ident(String),
}

/// Mathematical view of a [`Token`].
pub enum SpecToken {
    LBrace,
    RBrace,
    LParen,
    RParen,
    Comma,
    Colon,
    Str(Seq<char>),
    Ident(Seq<char>),
}

impl View for Token {
    type V = SpecToken;

    open spec fn view(&self) -> SpecToken {
        match self {
            Token::LBrace => SpecToken::LBrace,
            Token::RBrace => SpecToken::RBrace,
            Token::LParen => SpecToken::LParen,
            Token::RParen => SpecToken::RParen,
            Token::Comma => SpecToken::Comma,
            Token::Colon => SpecToken::Colon,
            Token::Str(s) => SpecToken::Str(s@),
            Token::Ident(s) => SpecToken::Ident(s@),
        }
    }
}

/// View of a token sequence, element by element.
pub open spec fn tokens_view(ts: Seq<Token>) -> Seq<SpecToken> {
    Seq::new(ts.len(), |i: int| ts[i]@)
}

/// Whitespace, insignificant between tokens.
pub open spec fn is_space_char(c: char) -> bool {
    c == ' ' || c == '\t' || c == '\r' || c == '\n'
}

/// May an identifier start with this character?
pub open spec fn is_ident_start_char(c: char) -> bool {
    ('a' as u32 <= c as u32 && c as u32 <= 'z' as u32) || ('A' as u32 <= c as u32 && c as u32
        <= 'Z' as u32) || c == '_'
}

/// May an identifier continue with this character?
pub open spec fn is_ident_char(c: char) -> bool {
    is_ident_start_char(c) || ('0' as u32 <= c as u32 && c as u32 <= '9' as u32)
}

/// The index just past the identifier starting at `i`: the first index at or
/// after `i` holding no identifier character.
pub open spec fn ident_end(cs: Seq<char>, i: int) -> int
    decreases cs.len() - i,
{
    if 0 <= i < cs.len() && is_ident_char(cs[i]) {
        ident_end(cs, i + 1)
    } else {
        i
    }
}

/// [`ident_end`] never moves backwards.
proof fn lemma_ident_end_ge(cs: Seq<char>, i: int)
    ensures
        ident_end(cs, i) >= i,
    decreases cs.len() - i,
{
    if 0 <= i < cs.len() && is_ident_char(cs[i]) {
        lemma_ident_end_ge(cs, i + 1);
    }
}

/// The index of the newline ending the line at `i`, or the end of input.
pub open spec fn line_end(cs: Seq<char>, i: int) -> int
    decreases cs.len() - i,
{
    if 0 <= i < cs.len() && cs[i] != '\n' {
        line_end(cs, i + 1)
    } else {
        i
    }
}

/// The index of the next double quote at or after `i`, if any.
pub open spec fn str_end(cs: Seq<char>, i: int) -> Option<int>
    decreases cs.len() - i,
{
    if !(0 <= i < cs.len()) {
        None
    } else if cs[i] == '"' {
        Some(i)
    } else {
        str_end(cs, i + 1)
    }
}

/// The tokens of the character sequence from position `i` on: `None` when the
/// text has an illegal character or an unterminated string literal.
pub open spec fn spec_tokenize(cs: Seq<char>, i: int) -> Option<Seq<SpecToken>>
    decreases cs.len() - i,
{
    if !(0 <= i < cs.len()) {
        Some(Seq::empty())
    } else {
        let c = cs[i];
        if is_space_char(c) {
            spec_tokenize(cs, i + 1)
        } else if c == '/' && i + 1 < cs.len() && cs[i + 1] == '/' {
            let j = line_end(cs, i);
            if j <= i || j > cs.len() {
                None
            } else {
                spec_tokenize(cs, j)
            }
        } else if c == '{' || c == '}' || c == '(' || c == ')' || c == ',' || c == ':' {
            let tok = if c == '{' {
                SpecToken::LBrace
            } else if c == '}' {
                SpecToken::RBrace
            } else if c == '(' {
                SpecToken::LParen
            } else if c == ')' {
                SpecToken::RParen
            } else if c == ',' {
                SpecToken::Comma
            } else {
                SpecToken::Colon
            };
            match spec_tokenize(cs, i + 1) {
                None => None,
                Some(ts) => Some(seq![tok] + ts),
            }
        } else if c == '"' {
            match str_end(cs, i + 1) {
                None => None,
                Some(j) => if !(i + 1 <= j < cs.len()) {
                    None
                } else {
                    match spec_tokenize(cs, j + 1) {
                        None => None,
                        Some(ts) => Some(seq![SpecToken::Str(cs.subrange(i + 1, j))] + ts),
                    }
                },
            }
        } else if is_ident_start_char(c) {
            let j = ident_end(cs, i);
            if j <= i || j > cs.len() {
                None
            } else {
                match spec_tokenize(cs, j) {
                    None => None,
                    Some(ts) => Some(seq![SpecToken::Ident(cs.subrange(i, j))] + ts),
                }
            }
        } else {
            None
        }
    }
}

/// Is the character whitespace, as [`is_space_char`] says?
fn is_space(c: char) -> (r: bool)
    ensures
        r == is_space_char(c),
{
    c == ' ' || c == '\t' || c == '\r' || c == '\n'
}

/// May an identifier start here, as [`is_ident_start_char`] says?
fn is_ident_start(c: char) -> (r: bool)
    ensures
        r == is_ident_start_char(c),
{
    (c >= 'a' && c <= 'z') || (c >= 'A' && c <= 'Z') || c == '_'
}

/// May an identifier continue here, as [`is_ident_char`] says?
fn is_ident_cont(c: char) -> (r: bool)
    ensures
        r == is_ident_char(c),
{
    is_ident_start(c) || (c >= '0' && c <= '9')
}

/// Tokenizes the character sequence, as [`spec_tokenize`] says; an error
/// carries the index of the offending character.
#[verifier::loop_isolation(false)]
fn tokenize(cs: &Vec<char>) -> (r: Result<(Vec<Token>, Vec<usize>), usize>)
    ensures
        match r {
            Ok(tp) => spec_tokenize(cs@, 0) == Some(tokens_view(tp.0@)) && tp.1@.len()
                == tp.0@.len(),
            Err(p) => spec_tokenize(cs@, 0) == None::<Seq<SpecToken>> && p <= cs@.len(),
        },
{
    let n = cs.len();
    let mut out: Vec<Token> = Vec::new();
    let mut out_pos: Vec<usize> = Vec::new();
    let mut i: usize = 0;
    while i < n
        invariant
            i <= n,
            n == cs@.len(),
            out_pos@.len() == out@.len(),
            forall|ts: Seq<SpecToken>|
                spec_tokenize(cs@, i as int) == Some(ts) ==> spec_tokenize(cs@, 0) == Some(
                    tokens_view(out@) + ts,
                ),
            spec_tokenize(cs@, i as int) == None::<Seq<SpecToken>> ==> spec_tokenize(cs@, 0)
                == None::<Seq<SpecToken>>,
        decreases n - i,
    {
        let ghost gi = i as int;
        let ghost prefix = tokens_view(out@);
        let c = cs[i];
        if is_space(c) {
            proof {
                assert(spec_tokenize(cs@, gi) == spec_tokenize(cs@, gi + 1));
            }
            i += 1;
        } else if c == '/' && i + 1 < n && cs[i + 1] == '/' {
            let mut j: usize = i;
            while j < n && cs[j] != '\n'
                invariant
                    i <= j <= n,
                    line_end(cs@, gi) == line_end(cs@, j as int),
                decreases n - j,
            {
                j += 1;
            }
            proof {
                assert(line_end(cs@, j as int) == j as int);
                lemma_ident_end_ge(cs@, gi);
                assert(cs@[gi] != '\n');
                assert(line_end(cs@, gi) == line_end(cs@, gi + 1));
                lemma_line_end_ge(cs@, gi + 1);
                assert(spec_tokenize(cs@, gi) == spec_tokenize(cs@, j as int));
            }
            i = j;
        } else if c == '{' || c == '}' || c == '(' || c == ')' || c == ',' || c == ':' {
            let tok = if c == '{' {
                Token::LBrace
            } else if c == '}' {
                Token::RBrace
            } else if c == '(' {
                Token::LParen
            } else if c == ')' {
                Token::RParen
            } else if c == ',' {
                Token::Comma
            } else {
                Token::Colon
            };
            let ghost tokv = tok@;
            out.push(tok);
            out_pos.push(i);
            proof {
                assert(tokens_view(out@) =~= prefix.push(tokv));
                assert forall|ts: Seq<SpecToken>|
                    spec_tokenize(cs@, gi + 1) == Some(ts) implies spec_tokenize(cs@, 0) == Some(
                    tokens_view(out@) + ts,
                ) by {
                    assert(spec_tokenize(cs@, gi) == Some(seq![tokv] + ts));
                    assert(prefix + (seq![tokv] + ts) =~= tokens_view(out@) + ts);
                }
            }
            i += 1;
        } else if c == '"' {
            let mut j: usize = i + 1;
            while j < n && cs[j] != '"'
                invariant
                    i + 1 <= j <= n,
                    n == cs@.len(),
                    str_end(cs@, gi + 1) == str_end(cs@, j as int),
                decreases n - j,
            {
                j += 1;
            }
            if j >= n {
                proof {
                    assert(str_end(cs@, j as int) == None::<int>);
                    assert(spec_tokenize(cs@, gi) == None::<Seq<SpecToken>>);
                }
                return Err(i);
            }
            proof {
                assert(str_end(cs@, j as int) == Some(j as int));
            }
            let mut lit = String::new();
            let mut m: usize = i + 1;
            while m < j
                invariant
                    i + 1 <= m <= j < n,
                    n == cs@.len(),
                    lit@ == cs@.subrange(gi + 1, m as int),
                decreases j - m,
            {
                lit.push(cs[m]);
                proof {
                    assert(lit@ =~= cs@.subrange(gi + 1, m + 1));
                }
                m += 1;
            }
            let ghost litv = lit@;
            out.push(Token::Str(lit));
            out_pos.push(i);
            proof {
                assert(tokens_view(out@) =~= prefix.push(SpecToken::Str(litv)));
                assert forall|ts: Seq<SpecToken>|
                    spec_tokenize(cs@, j + 1) == Some(ts) implies spec_tokenize(cs@, 0) == Some(
                    tokens_view(out@) + ts,
                ) by {
                    assert(spec_tokenize(cs@, gi) == Some(
                        seq![SpecToken::Str(cs@.subrange(gi + 1, j as int))] + ts,
                    ));
                    assert(prefix + (seq![SpecToken::Str(litv)] + ts) =~= tokens_view(out@) + ts);
                }
                assert(spec_tokenize(cs@, j + 1) == None::<Seq<SpecToken>> ==> spec_tokenize(
                    cs@,
                    gi,
                ) == None::<Seq<SpecToken>>);
            }
            i = j + 1;
        } else if is_ident_start(c) {
            let mut j: usize = i;
            while j < n && is_ident_cont(cs[j])
                invariant
                    i <= j <= n,
                    n == cs@.len(),
                    ident_end(cs@, gi) == ident_end(cs@, j as int),
                decreases n - j,
            {
                j += 1;
            }
            proof {
                assert(ident_end(cs@, j as int) == j as int);
                assert(is_ident_char(cs@[gi]));
                assert(ident_end(cs@, gi) == ident_end(cs@, gi + 1));
                lemma_ident_end_ge(cs@, gi + 1);
                assert(j > i);
            }
            let mut name = String::new();
            let mut m: usize = i;
            while m < j
                invariant
                    i <= m <= j <= n,
                    n == cs@.len(),
                    name@ == cs@.subrange(gi, m as int),
                decreases j - m,
            {
                name.push(cs[m]);
                proof {
                    assert(name@ =~= cs@.subrange(gi, m + 1));
                }
                m += 1;
            }
            let ghost namev = name@;
            out.push(Token::Ident(name));
            out_pos.push(i);
            proof {
                assert(tokens_view(out@) =~= prefix.push(SpecToken::Ident(namev)));
                assert forall|ts: Seq<SpecToken>|
                    spec_tokenize(cs@, j as int) == Some(ts) implies spec_tokenize(cs@, 0) == Some(
                    tokens_view(out@) + ts,
                ) by {
                    assert(spec_tokenize(cs@, gi) == Some(
                        seq![SpecToken::Ident(cs@.subrange(gi, j as int))] + ts,
                    ));
                    assert(prefix + (seq![SpecToken::Ident(namev)] + ts) =~= tokens_view(out@)
                        + ts);
                }
                assert(spec_tokenize(cs@, j as int) == None::<Seq<SpecToken>> ==> spec_tokenize(
                    cs@,
                    gi,
                ) == None::<Seq<SpecToken>>);
            }
            i = j;
        } else {
            proof {
                assert(spec_tokenize(cs@, gi) == None::<Seq<SpecToken>>);
            }
            return Err(i);
        }
    }
    proof {
        assert(spec_tokenize(cs@, i as int) == Some(Seq::<SpecToken>::empty()));
        assert(tokens_view(out@) + Seq::<SpecToken>::empty() =~= tokens_view(out@));
    }
    Ok((out, out_pos))
}

/// [`line_end`] never moves backwards.
proof fn lemma_line_end_ge(cs: Seq<char>, i: int)
    ensures
        line_end(cs, i) >= i,
    decreases cs.len() - i,
{
    if 0 <= i < cs.len() && cs[i] != '\n' {
        lemma_line_end_ge(cs, i + 1);
    }
}



/// Is the token the given keyword identifier?
pub open spec fn tok_is_kw(t: SpecToken, kw: Seq<char>) -> bool {
    match t {
        SpecToken::Ident(x) => x == kw,
        _ => false,
    }
}

/// Parses one rewrite expression starting at token `i`: `Ok` carries the
/// expression and the position just past it, `Err` the failing position.
pub open spec fn spec_parse_expression(ts: Seq<SpecToken>, i: int) -> Result<(SpecExpr, int), int>
    decreases ts.len() - i, 0nat,
{
    if !(0 <= i < ts.len()) {
        Err(i)
    } else if tok_is_kw(ts[i], "this"@) {
        Ok((SpecExpr::This, i + 1))
    } else if tok_is_kw(ts[i], "computed_userset"@) {
        if i + 5 < ts.len() && ts[i + 1] is LParen && tok_is_kw(ts[i + 2], "relation"@) && ts[i
            + 3] is Colon && ts[i + 4] is Str && ts[i + 5] is RParen {
            Ok((SpecExpr::ComputedUserset { relation: ts[i + 4]->Str_0 }, i + 6))
        } else {
            Err(i)
        }
    } else if tok_is_kw(ts[i], "tuple_to_userset"@) {
        if i + 9 < ts.len() && ts[i + 1] is LParen && tok_is_kw(ts[i + 2], "tupleset"@) && ts[i
            + 3] is Colon && ts[i + 4] is Str && ts[i + 5] is Comma && tok_is_kw(
            ts[i + 6],
            "computed_userset"@,
        ) && ts[i + 7] is Colon && ts[i + 8] is Str && ts[i + 9] is RParen {
            Ok(
                (
                    SpecExpr::TupleToUserset {
                        tupleset_relation: ts[i + 4]->Str_0,
                        computed_userset_relation: ts[i + 8]->Str_0,
                    },
                    i + 10,
                ),
            )
        } else {
            Err(i)
        }
    } else if tok_is_kw(ts[i], "union"@) || tok_is_kw(ts[i], "intersection"@) {
        if i + 1 < ts.len() && ts[i + 1] is LParen {
            match spec_parse_args(ts, i + 2) {
                Err(p) => Err(p),
                Ok((es, j)) => if 0 <= j < ts.len() && ts[j] is RParen && es.len() >= 2 {
                    if tok_is_kw(ts[i], "union"@) {
                        Ok((SpecExpr::Union(es), j + 1))
                    } else {
                        Ok((SpecExpr::Intersection(es), j + 1))
                    }
                } else {
                    Err(j)
                },
            }
        } else {
            Err(i)
        }
    } else if tok_is_kw(ts[i], "exclusion"@) {
        if i + 1 < ts.len() && ts[i + 1] is LParen {
            match spec_parse_expression(ts, i + 2) {
                Err(p) => Err(p),
                Ok((base, j)) => if j <= i + 2 || j > ts.len() {
                    Err(i)
                } else if 0 <= j < ts.len() && ts[j] is Comma {
                    match spec_parse_expression(ts, j + 1) {
                        Err(p) => Err(p),
                        Ok((exclude, k)) => if 0 <= k < ts.len() && ts[k] is RParen {
                            Ok(
                                (
                                    SpecExpr::Exclusion {
                                        base: Box::new(base),
                                        exclude: Box::new(exclude),
                                    },
                                    k + 1,
                                ),
                            )
                        } else {
                            Err(k)
                        },
                    }
                } else {
                    Err(j)
                },
            }
        } else {
            Err(i)
        }
    } else {
        Err(i)
    }
}

/// Parses one or more comma-separated expressions starting at token `i`.
pub open spec fn spec_parse_args(ts: Seq<SpecToken>, i: int) -> Result<(Seq<SpecExpr>, int), int>
    decreases ts.len() - i, 1nat,
{
    match spec_parse_expression(ts, i) {
        Err(p) => Err(p),
        Ok((e, j)) => if j <= i || j > ts.len() {
            Err(i)
        } else if 0 <= j < ts.len() && ts[j] is Comma {
            match spec_parse_args(ts, j + 1) {
                Err(p) => Err(p),
                Ok((es, k)) => Ok((seq![e] + es, k)),
            }
        } else {
            Ok((seq![e], j))
        },
    }
}

/// Parses one relation block `relation IDENT { rewrite EXPR? }` at token `i`.
pub open spec fn spec_parse_relation(ts: Seq<SpecToken>, i: int) -> Result<
    (SpecRelationConfig, int),
    int,
>
    decreases ts.len() - i, 0nat,
{
    if i + 2 < ts.len() && 0 <= i && tok_is_kw(ts[i], "relation"@) && ts[i + 1] is Ident && ts[i
        + 2] is LBrace {
        let name = ts[i + 1]->Ident_0;
        if i + 3 < ts.len() && tok_is_kw(ts[i + 3], "rewrite"@) {
            match spec_parse_expression(ts, i + 4) {
                Err(p) => Err(p),
                Ok((e, j)) => if 0 <= j < ts.len() && ts[j] is RBrace {
                    Ok((SpecRelationConfig { name, userset_rewrite: Some(e) }, j + 1))
                } else {
                    Err(j)
                },
            }
        } else if i + 3 < ts.len() && ts[i + 3] is RBrace {
            Ok((SpecRelationConfig { name, userset_rewrite: None }, i + 4))
        } else {
            Err(i + 3)
        }
    } else {
        Err(i)
    }
}

/// Parses relation blocks up to and including the closing brace of the
/// namespace block.
pub open spec fn spec_parse_relations(ts: Seq<SpecToken>, i: int) -> Result<
    (Seq<SpecRelationConfig>, int),
    int,
>
    decreases ts.len() - i, 1nat,
{
    if !(0 <= i < ts.len()) {
        Err(i)
    } else if ts[i] is RBrace {
        Ok((Seq::empty(), i + 1))
    } else {
        match spec_parse_relation(ts, i) {
            Err(p) => Err(p),
            Ok((rc, j)) => if j <= i || j > ts.len() {
                Err(i)
            } else {
                match spec_parse_relations(ts, j) {
                    Err(p) => Err(p),
                    Ok((rcs, k)) => Ok((seq![rc] + rcs, k)),
                }
            },
        }
    }
}

/// Parses one namespace block `namespace IDENT { relation_def* }` at `i`.
pub open spec fn spec_parse_namespace(ts: Seq<SpecToken>, i: int) -> Result<
    (SpecNamespaceConfig, int),
    int,
>
    decreases ts.len() - i, 0nat,
{
    if i + 2 < ts.len() && 0 <= i && tok_is_kw(ts[i], "namespace"@) && ts[i + 1] is Ident && ts[i
        + 2] is LBrace {
        let name = ts[i + 1]->Ident_0;
        match spec_parse_relations(ts, i + 3) {
            Err(p) => Err(p),
            Ok((rcs, j)) => Ok((SpecNamespaceConfig { name, relations: rcs }, j)),
        }
    } else {
        Err(i)
    }
}

/// Parses a whole token sequence as a list of namespace blocks.
pub open spec fn spec_parse_file(ts: Seq<SpecToken>, i: int) -> Result<
    Seq<SpecNamespaceConfig>,
    int,
>
    decreases ts.len() - i, 1nat,
{
    if !(0 <= i) {
        Err(i)
    } else if i >= ts.len() {
        Ok(Seq::empty())
    } else {
        match spec_parse_namespace(ts, i) {
            Err(p) => Err(p),
            Ok((c, j)) => if j <= i || j > ts.len() {
                Err(i)
            } else {
                match spec_parse_file(ts, j) {
                    Err(p) => Err(p),
                    Ok(cs) => Ok(seq![c] + cs),
                }
            },
        }
    }
}

/// Which texts parse, and to what: the text tokenizes and its tokens form a
/// sequence of namespace blocks. This is the meaning of [`parse_dsl`].
pub open spec fn spec_parse_dsl(cs: Seq<char>) -> Option<Seq<SpecNamespaceConfig>> {
    match spec_tokenize(cs, 0) {
        None => None,
        Some(ts) => match spec_parse_file(ts, 0) {
            Ok(cfgs) => Some(cfgs),
            Err(_) => None,
        },
    }
}


/// View of a relation-configuration sequence, element by element.
pub open spec fn relcfgs_view(rs: Seq<RelationConfig>) -> Seq<SpecRelationConfig> {
    Seq::new(rs.len(), |i: int| rs[i]@)
}

/// Is the token the given keyword, as [`tok_is_kw`] says?
fn ident_is(t: &Token, kw: &str) -> (r: bool)
    ensures
        r == tok_is_kw(t@, kw@),
{
    match t {
        Token::Ident(s) => *s == kw.to_owned(),
        _ => false,
    }
}

/// Parses one rewrite expression, as [`spec_parse_expression`] says.
fn parse_expression(toks: &Vec<Token>, i: usize) -> (r: Result<(UsersetExpression, usize), usize>)
    ensures
        ({
            let ts = tokens_view(toks@);
            match r {
                Ok(ej) => spec_parse_expression(ts, i as int) == Ok::<(SpecExpr, int), int>(
                    (ej.0@, ej.1 as int),
                ) && i < ej.1 <= toks@.len(),
                Err(p) => spec_parse_expression(ts, i as int) == Err::<(SpecExpr, int), int>(
                    p as int,
                ),
            }
        }),
    decreases toks@.len() - i, 0nat,
{
    let ghost ts = tokens_view(toks@);
    let n = toks.len();
    if i >= n {
        return Err(i);
    }
    proof {
        assert(ts[i as int] == toks@[i as int]@);
    }
    if ident_is(&toks[i], "this") {
        proof {
            assert(spec_parse_expression(ts, i as int) == Ok::<(SpecExpr, int), int>(
                (SpecExpr::This, i + 1),
            ));
        }
        Ok((UsersetExpression::This, i + 1))
    } else if ident_is(&toks[i], "computed_userset") {
        if n - i > 5 && matches!(&toks[i + 1], Token::LParen) && ident_is(&toks[i + 2], "relation")
            && matches!(&toks[i + 3], Token::Colon) && matches!(&toks[i + 4], Token::Str(_))
            && matches!(&toks[i + 5], Token::RParen) {
            proof {
                assert(ts[i + 1] == toks@[i + 1]@);
                assert(ts[i + 2] == toks@[i + 2]@);
                assert(ts[i + 3] == toks@[i + 3]@);
                assert(ts[i + 4] == toks@[i + 4]@);
                assert(ts[i + 5] == toks@[i + 5]@);
            }
            match &toks[i + 4] {
                Token::Str(rel) => {
                    let e = UsersetExpression::ComputedUserset { relation: Relation(rel.clone()) };
                    proof {
                        assert(e@ == SpecExpr::ComputedUserset { relation: ts[i + 4]->Str_0 });
                    }
                    Ok((e, i + 6))
                },
                _ => {
                    proof {
                        assert(false);
                    }
                    Err(i)
                },
            }
        } else {
            Err(i)
        }
    } else if ident_is(&toks[i], "tuple_to_userset") {
        if n - i > 9 && matches!(&toks[i + 1], Token::LParen) && ident_is(&toks[i + 2], "tupleset")
            && matches!(&toks[i + 3], Token::Colon) && matches!(&toks[i + 4], Token::Str(_))
            && matches!(&toks[i + 5], Token::Comma) && ident_is(&toks[i + 6], "computed_userset")
            && matches!(&toks[i + 7], Token::Colon) && matches!(&toks[i + 8], Token::Str(_))
            && matches!(&toks[i + 9], Token::RParen) {
            proof {
                assert(ts[i + 1] == toks@[i + 1]@);
                assert(ts[i + 2] == toks@[i + 2]@);
                assert(ts[i + 3] == toks@[i + 3]@);
                assert(ts[i + 4] == toks@[i + 4]@);
                assert(ts[i + 5] == toks@[i + 5]@);
                assert(ts[i + 6] == toks@[i + 6]@);
                assert(ts[i + 7] == toks@[i + 7]@);
                assert(ts[i + 8] == toks@[i + 8]@);
                assert(ts[i + 9] == toks@[i + 9]@);
            }
            match (&toks[i + 4], &toks[i + 8]) {
                (Token::Str(tsr), Token::Str(cur)) => {
                    let e = UsersetExpression::TupleToUserset {
                        tupleset_relation: Relation(tsr.clone()),
                        computed_userset_relation: Relation(cur.clone()),
                    };
                    proof {
                        assert(e@ == SpecExpr::TupleToUserset {
                            tupleset_relation: ts[i + 4]->Str_0,
                            computed_userset_relation: ts[i + 8]->Str_0,
                        });
                    }
                    Ok((e, i + 10))
                },
                _ => {
                    proof {
                        assert(false);
                    }
                    Err(i)
                },
            }
        } else {
            Err(i)
        }
    } else if ident_is(&toks[i], "union") || ident_is(&toks[i], "intersection") {
        if n - i > 1 && matches!(&toks[i + 1], Token::LParen) {
            proof {
                assert(ts[i + 1] == toks@[i + 1]@);
            }
            match parse_args(toks, i + 2) {
                Err(p) => Err(p),
                Ok((es, j)) => {
                    proof {
                        if j < n {
                            assert(ts[j as int] == toks@[j as int]@);
                        }
                        crate::model::lemma_exprs_view(es@);
                    }
                    if j < n && matches!(&toks[j], Token::RParen) && es.len() >= 2 {
                        if ident_is(&toks[i], "union") {
                            let e = UsersetExpression::Union(es);
                            proof {
                                assert(e@ == SpecExpr::Union(crate::model::exprs_view(es@)));
                            }
                            Ok((e, j + 1))
                        } else {
                            let e = UsersetExpression::Intersection(es);
                            proof {
                                assert(e@ == SpecExpr::Intersection(
                                    crate::model::exprs_view(es@),
                                ));
                            }
                            Ok((e, j + 1))
                        }
                    } else {
                        Err(j)
                    }
                },
            }
        } else {
            Err(i)
        }
    } else if ident_is(&toks[i], "exclusion") {
        if n - i > 1 && matches!(&toks[i + 1], Token::LParen) {
            proof {
                assert(ts[i + 1] == toks@[i + 1]@);
            }
            match parse_expression(toks, i + 2) {
                Err(p) => Err(p),
                Ok((base, j)) => {
                    proof {
                        if j < n {
                            assert(ts[j as int] == toks@[j as int]@);
                        }
                    }
                    if j < n && matches!(&toks[j], Token::Comma) {
                        match parse_expression(toks, j + 1) {
                            Err(p) => Err(p),
                            Ok((exclude, k)) => {
                                proof {
                                    if k < n {
                                        assert(ts[k as int] == toks@[k as int]@);
                                    }
                                }
                                if k < n && matches!(&toks[k], Token::RParen) {
                                    let ghost bv = base@;
                                    let ghost xv = exclude@;
                                    let e = UsersetExpression::Exclusion {
                                        base: Box::new(base),
                                        exclude: Box::new(exclude),
                                    };
                                    proof {
                                        assert(e@ == SpecExpr::Exclusion {
                                            base: Box::new(bv),
                                            exclude: Box::new(xv),
                                        });
                                    }
                                    Ok((e, k + 1))
                                } else {
                                    Err(k)
                                }
                            },
                        }
                    } else {
                        Err(j)
                    }
                },
            }
        } else {
            Err(i)
        }
    } else {
        Err(i)
    }
}

/// Parses one or more comma-separated expressions, as [`spec_parse_args`]
/// says.
fn parse_args(toks: &Vec<Token>, i: usize) -> (r: Result<(Vec<UsersetExpression>, usize), usize>)
    ensures
        ({
            let ts = tokens_view(toks@);
            match r {
                Ok(ej) => spec_parse_args(ts, i as int) == Ok::<(Seq<SpecExpr>, int), int>(
                    (crate::model::exprs_view(ej.0@), ej.1 as int),
                ) && i < ej.1 <= toks@.len(),
                Err(p) => spec_parse_args(ts, i as int) == Err::<(Seq<SpecExpr>, int), int>(
                    p as int,
                ),
            }
        }),
    decreases toks@.len() - i, 1nat,
{
    let ghost ts = tokens_view(toks@);
    let n = toks.len();
    match parse_expression(toks, i) {
        Err(p) => Err(p),
        Ok((e, j)) => {
            proof {
                if j < n {
                    assert(ts[j as int] == toks@[j as int]@);
                }
            }
            if j < n && matches!(&toks[j], Token::Comma) {
                match parse_args(toks, j + 1) {
                    Err(p) => Err(p),
                    Ok((es, k)) => {
                        let ghost ev = e@;
                        let ghost oldes = es@;
                        let mut es2 = es;
                        es2.insert(0, e);
                        proof {
                            crate::model::lemma_exprs_view(oldes);
                            crate::model::lemma_exprs_view(es2@);
                            assert(crate::model::exprs_view(es2@) =~= seq![ev]
                                + crate::model::exprs_view(oldes)) by {
                                assert forall|x: int| 0 <= x < es2@.len() implies
                                    crate::model::exprs_view(es2@)[x] == (seq![ev]
                                    + crate::model::exprs_view(oldes))[x] by {
                                    if x > 0 {
                                        assert(es2@[x] == oldes[x - 1]);
                                    }
                                }
                            }
                        }
                        Ok((es2, k))
                    },
                }
            } else {
                let mut v: Vec<UsersetExpression> = Vec::new();
                let ghost ev = e@;
                v.push(e);
                proof {
                    crate::model::lemma_exprs_view(v@);
                    assert(crate::model::exprs_view(v@) =~= seq![ev]);
                }
                Ok((v, j))
            }
        },
    }
}

/// Parses one relation block, as [`spec_parse_relation`] says.
fn parse_relation(toks: &Vec<Token>, i: usize) -> (r: Result<(RelationConfig, usize), usize>)
    ensures
        ({
            let ts = tokens_view(toks@);
            match r {
                Ok(ej) => spec_parse_relation(ts, i as int) == Ok::<(SpecRelationConfig, int), int>(
                    (ej.0@, ej.1 as int),
                ) && i < ej.1 <= toks@.len(),
                Err(p) => spec_parse_relation(ts, i as int) == Err::<
                    (SpecRelationConfig, int),
                    int,
                >(p as int),
            }
        }),
    decreases toks@.len() - i, 0nat,
{
    let ghost ts = tokens_view(toks@);
    let n = toks.len();
    if i < n && n - i > 2 && ident_is(&toks[i], "relation") && matches!(&toks[i + 1], Token::Ident(_))
        && matches!(&toks[i + 2], Token::LBrace) {
        proof {
            assert(ts[i as int] == toks@[i as int]@);
            assert(ts[i + 1] == toks@[i + 1]@);
            assert(ts[i + 2] == toks@[i + 2]@);
        }
        let name = match &toks[i + 1] {
            Token::Ident(s) => Relation(s.clone()),
            _ => {
                proof {
                    assert(false);
                }
                Relation(String::new())
            },
        };
        proof {
            assert(name@ == ts[i + 1]->Ident_0);
        }
        if n - i > 3 && ident_is(&toks[i + 3], "rewrite") {
            proof {
                assert(ts[i + 3] == toks@[i + 3]@);
            }
            match parse_expression(toks, i + 4) {
                Err(p) => Err(p),
                Ok((e, j)) => {
                    proof {
                        if j < n {
                            assert(ts[j as int] == toks@[j as int]@);
                        }
                    }
                    if j < n && matches!(&toks[j], Token::RBrace) {
                        let rc = RelationConfig { name, userset_rewrite: Some(e) };
                        Ok((rc, j + 1))
                    } else {
                        Err(j)
                    }
                },
            }
        } else if n - i > 3 && matches!(&toks[i + 3], Token::RBrace) {
            proof {
                assert(ts[i + 3] == toks@[i + 3]@);
            }
            let rc = RelationConfig { name, userset_rewrite: None };
            Ok((rc, i + 4))
        } else {
            proof {
                if n - i > 3 {
                    assert(ts[i + 3] == toks@[i + 3]@);
                }
            }
            Err(i + 3)
        }
    } else {
        proof {
            if i < n && n - i > 2 {
                assert(ts[i as int] == toks@[i as int]@);
                assert(ts[i + 1] == toks@[i + 1]@);
                assert(ts[i + 2] == toks@[i + 2]@);
            }
        }
        Err(i)
    }
}

/// Parses relation blocks up to the closing brace, as
/// [`spec_parse_relations`] says.
fn parse_relations(toks: &Vec<Token>, i: usize) -> (r: Result<(Vec<RelationConfig>, usize), usize>)
    ensures
        ({
            let ts = tokens_view(toks@);
            match r {
                Ok(ej) => spec_parse_relations(ts, i as int) == Ok::<
                    (Seq<SpecRelationConfig>, int),
                    int,
                >((relcfgs_view(ej.0@), ej.1 as int)) && i < ej.1 <= toks@.len(),
                Err(p) => spec_parse_relations(ts, i as int) == Err::<
                    (Seq<SpecRelationConfig>, int),
                    int,
                >(p as int),
            }
        }),
    decreases toks@.len() - i, 1nat,
{
    let ghost ts = tokens_view(toks@);
    let n = toks.len();
    if i >= n {
        return Err(i);
    }
    proof {
        assert(ts[i as int] == toks@[i as int]@);
    }
    if matches!(&toks[i], Token::RBrace) {
        let v: Vec<RelationConfig> = Vec::new();
        proof {
            assert(relcfgs_view(v@) =~= Seq::<SpecRelationConfig>::empty());
        }
        return Ok((v, i + 1));
    }
    match parse_relation(toks, i) {
        Err(p) => Err(p),
        Ok((rc, j)) => match parse_relations(toks, j) {
            Err(p) => Err(p),
            Ok((rcs, k)) => {
                let ghost rcv = rc@;
                let ghost oldr = rcs@;
                let mut rcs2 = rcs;
                rcs2.insert(0, rc);
                proof {
                    assert(relcfgs_view(rcs2@) =~= seq![rcv] + relcfgs_view(oldr)) by {
                        assert forall|x: int| 0 <= x < rcs2@.len() implies relcfgs_view(rcs2@)[x]
                            == (seq![rcv] + relcfgs_view(oldr))[x] by {
                            if x > 0 {
                                assert(rcs2@[x] == oldr[x - 1]);
                            }
                        }
                    }
                }
                Ok((rcs2, k))
            },
        },
    }
}

/// Parses one namespace block, as [`spec_parse_namespace`] says.
fn parse_namespace(toks: &Vec<Token>, i: usize) -> (r: Result<(NamespaceConfig, usize), usize>)
    ensures
        ({
            let ts = tokens_view(toks@);
            match r {
                Ok(ej) => spec_parse_namespace(ts, i as int) == Ok::<
                    (SpecNamespaceConfig, int),
                    int,
                >((ej.0@, ej.1 as int)) && i < ej.1 <= toks@.len(),
                Err(p) => spec_parse_namespace(ts, i as int) == Err::<
                    (SpecNamespaceConfig, int),
                    int,
                >(p as int),
            }
        }),
    decreases toks@.len() - i, 0nat,
{
    let ghost ts = tokens_view(toks@);
    let n = toks.len();
    if i < n && n - i > 2 && ident_is(&toks[i], "namespace") && matches!(&toks[i + 1], Token::Ident(_))
        && matches!(&toks[i + 2], Token::LBrace) {
        proof {
            assert(ts[i as int] == toks@[i as int]@);
            assert(ts[i + 1] == toks@[i + 1]@);
            assert(ts[i + 2] == toks@[i + 2]@);
        }
        let name = match &toks[i + 1] {
            Token::Ident(s) => s.clone(),
            _ => {
                proof {
                    assert(false);
                }
                String::new()
            },
        };
        match parse_relations(toks, i + 3) {
            Err(p) => Err(p),
            Ok((rcs, j)) => {
                let ghost rcsv = relcfgs_view(rcs@);
                let cfg = NamespaceConfig { name, relations: rcs };
                proof {
                    assert(cfg@.relations =~= rcsv);
                }
                Ok((cfg, j))
            },
        }
    } else {
        proof {
            if i < n && n - i > 2 {
                assert(ts[i as int] == toks@[i as int]@);
                assert(ts[i + 1] == toks@[i + 1]@);
                assert(ts[i + 2] == toks@[i + 2]@);
            }
        }
        Err(i)
    }
}

/// Parses a whole token sequence, as [`spec_parse_file`] says.
fn parse_file(toks: &Vec<Token>, i: usize) -> (r: Result<Vec<NamespaceConfig>, usize>)
    ensures
        ({
            let ts = tokens_view(toks@);
            match r {
                Ok(cfgs) => spec_parse_file(ts, i as int) == Ok::<Seq<SpecNamespaceConfig>, int>(
                    configs_view(cfgs@),
                ),
                Err(p) => spec_parse_file(ts, i as int) == Err::<Seq<SpecNamespaceConfig>, int>(
                    p as int,
                ),
            }
        }),
    decreases toks@.len() - i, 1nat,
{
    let ghost ts = tokens_view(toks@);
    let n = toks.len();
    if i >= n {
        let v: Vec<NamespaceConfig> = Vec::new();
        proof {
            assert(configs_view(v@) =~= Seq::<SpecNamespaceConfig>::empty());
        }
        return Ok(v);
    }
    match parse_namespace(toks, i) {
        Err(p) => Err(p),
        Ok((c, j)) => match parse_file(toks, j) {
            Err(p) => Err(p),
            Ok(cs) => {
                let ghost cv = c@;
                let ghost oldc = cs@;
                let mut cs2 = cs;
                cs2.insert(0, c);
                proof {
                    assert(configs_view(cs2@) =~= seq![cv] + configs_view(oldc)) by {
                        assert forall|x: int| 0 <= x < cs2@.len() implies configs_view(cs2@)[x] == (
                        seq![cv] + configs_view(oldc))[x] by {
                            if x > 0 {
                                assert(cs2@[x] == oldc[x - 1]);
                            }
                        }
                    }
                }
                Ok(cs2)
            },
        },
    }
}


/// Relies on `String::push_str`: appends exactly the given characters.
pub assume_specification[ String::push_str ](s: &mut String, other: &str)
    ensures
        final(s)@ == old(s)@ + other@,
;

/// The characters of a string slice, in order.
fn str_chars(s: &str) -> (v: Vec<char>)
    ensures
        v@ == s@,
{
    broadcast use vstd::string::next_postcondition;
    broadcast use vstd::string::axiom_spec_iter;

    let mut it = s.chars();
    let mut v: Vec<char> = Vec::new();
    loop
        invariant
            it.obeys_prophetic_iter_laws(),
            it.decrease() is Some,
            v@ + it.remaining() == s@,
        decreases it.decrease()->0,
    {
        match it.next() {
            Some(c) => {
                v.push(c);
                proof {
                    assert(v@ + it.remaining() =~= s@);
                }
            },
            None => {
                proof {
                    assert(v@ =~= s@);
                }
                return v;
            },
        }
    }
}

/// The decimal digits of a number, for error messages.
fn usize_to_string(n: usize) -> (r: String) {
    let mut digits: Vec<char> = Vec::new();
    let mut m = n;
    if m == 0 {
        digits.push('0');
    }
    while m > 0
        invariant
            digits@.len() <= 20,
            m <= usize::MAX,
        decreases m,
    {
        if digits.len() >= 20 {
            break ;
        }
        let d = m % 10;
        let c = match d {
            0 => '0',
            1 => '1',
            2 => '2',
            3 => '3',
            4 => '4',
            5 => '5',
            6 => '6',
            7 => '7',
            8 => '8',
            _ => '9',
        };
        digits.push(c);
        m = m / 10;
        proof {
            assert(m < usize::MAX);
        }
    }
    let mut out = String::new();
    let mut i = digits.len();
    while i > 0
        invariant
            i <= digits@.len(),
        decreases i,
    {
        i -= 1;
        out.push(digits[i]);
    }
    out
}

/// A human-readable parse error naming the line and column of the offending
/// character.
fn parse_error_at(cs: &Vec<char>, pos: usize) -> (r: ZanzibarError)
    ensures
        r is ParseError,
{
    let mut line: usize = 1;
    let mut col: usize = 1;
    let mut i: usize = 0;
    let n = cs.len();
    while i < n && i < pos
        invariant
            line >= 1,
            col >= 1,
            i <= n,
            n == cs@.len(),
        decreases n - i,
    {
        if cs[i] == '\n' {
            if line < usize::MAX {
                line += 1;
            }
            col = 1;
        } else {
            if col < usize::MAX {
                col += 1;
            }
        }
        i += 1;
    }
    let mut msg = String::new();
    msg.push_str("unexpected input at line ");
    msg.push_str(usize_to_string(line).as_str());
    msg.push_str(", column ");
    msg.push_str(usize_to_string(col).as_str());
    ZanzibarError::ParseError(msg)
}

/// Parses DSL text into namespace configurations. Succeeds exactly on the
/// texts of the grammar, with the configurations [`spec_parse_dsl`] gives;
/// any failure is a [`ZanzibarError::ParseError`] whose message names the
/// line and column of the offending input.
pub fn parse_dsl(dsl: &str) -> (r: Result<Vec<NamespaceConfig>, ZanzibarError>)
    ensures
        match r {
            Ok(cfgs) => spec_parse_dsl(dsl@) == Some(configs_view(cfgs@)),
            Err(e) => spec_parse_dsl(dsl@) == None::<Seq<SpecNamespaceConfig>> && e is ParseError,
        },
{
    let cs = str_chars(dsl);
    match tokenize(&cs) {
        Err(p) => Err(parse_error_at(&cs, p)),
        Ok((toks, positions)) => match parse_file(&toks, 0) {
            Err(p) => {
                // Report the error at the character position of the failing
                // token where one exists, else at the end of the input.
                let pos = if p < positions.len() {
                    positions[p]
                } else {
                    cs.len()
                };
                Err(parse_error_at(&cs, pos))
            },
            Ok(cfgs) => Ok(cfgs),
        },
    }
}

} // verus!
