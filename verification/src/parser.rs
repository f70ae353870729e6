//! The parser: one-token-lookahead recursive descent over a scanned token
//! sequence, producing the program's rules or failing on the first malformed
//! rule with the line of the offending token.
//!
//! [`parse_from`] is the mathematical model of the whole parse; `parse` is
//! proved against it.

use crate::errors::PrologError;
use crate::expr::{LiteralObj, Rule, UnitClause};
use crate::literal::{Literal, LiteralView};
use crate::scanner::tokens_view;
use crate::token::{Token, TokenView};
use crate::token_types::TokenType;
use vstd::prelude::*;

verus! {

/// A well-formed token sequence: non-empty and terminated by exactly one
/// end-of-input token, as the scanner produces it.
pub open spec fn wf_tokens(toks: Seq<TokenView>) -> bool {
    &&& toks.len() >= 1
    &&& toks.last().token_type == TokenType::EOF
    &&& forall|i: int| 0 <= i < toks.len() - 1 ==> (#[trigger] toks[i].token_type)
        != TokenType::EOF
}

/// The result of parsing from position `i`: the wrapped atom names of the
/// parsed rules, in order, or the line and message of the first syntactic
/// failure. A failure carries no partial result.
pub open spec fn parse_from(toks: Seq<TokenView>, i: int) -> Result<
    Seq<Seq<char>>,
    (int, Seq<char>),
>
    decreases toks.len() - i,
    when 0 <= i
{
    if i >= toks.len() {
        Ok(Seq::empty())
    } else if toks[i].token_type == TokenType::EOF {
        Ok(Seq::empty())
    } else if toks[i].token_type == TokenType::ATOM && i + 1 < toks.len() {
        if toks[i + 1].token_type == TokenType::DOT {
            match toks[i].literal {
                Option::None => Err((toks[i].line, "Invalid atom."@)),
                Option::Some(LiteralView::Atom(a)) => match parse_from(toks, i + 2) {
                    Ok(rest) => Ok(seq![a] + rest),
                    Err(e) => Err(e),
                },
                Option::Some(_) => Err((toks[i + 1].line, "Expected atom."@)),
            }
        } else {
            Err((toks[i + 1].line, "Expected clause."@))
        }
    } else {
        Err((toks[i].line, "Expected clause."@))
    }
}

/// Whether position `i` begins a well-formed rule: an ATOM token carrying an
/// atom literal, followed by the clause terminator.
pub open spec fn good_rule_at(toks: Seq<TokenView>, i: int) -> bool {
    &&& toks[i].token_type == TokenType::ATOM
    &&& i + 1 < toks.len()
    &&& toks[i + 1].token_type == TokenType::DOT
    &&& toks[i].literal matches Some(LiteralView::Atom(_))
}

/// The error the parser raises at the head of a malformed rule, with the line
/// of the token at fault.
pub open spec fn rule_error(toks: Seq<TokenView>, i: int) -> (int, Seq<char>)
    recommends
        0 <= i < toks.len(),
        !good_rule_at(toks, i),
{
    if toks[i].token_type != TokenType::ATOM {
        (toks[i].line, "Expected clause."@)
    } else if !(i + 1 < toks.len() && toks[i + 1].token_type == TokenType::DOT) {
        (toks[i + 1].line, "Expected clause."@)
    } else if toks[i].literal is None {
        (toks[i].line, "Invalid atom."@)
    } else {
        (toks[i + 1].line, "Expected atom."@)
    }
}

/// Every scanned token sequence is well formed: the scanner's output always
/// satisfies the parser's precondition.
pub proof fn lemma_scanned_tokens_wf(src: Seq<char>)
    ensures
        wf_tokens(crate::scanner::scanned_tokens(src)),
{
    crate::scanner::lemma_end_of_input_token(src);
}

/// A malformed rule head fails the whole parse with the line of the offending
/// token: either a token that cannot start a rule, or an atom not followed by
/// the clause terminator.
pub proof fn lemma_malformed_rule_fails(toks: Seq<TokenView>, i: int)
    requires
        wf_tokens(toks),
        0 <= i < toks.len(),
        toks[i].token_type != TokenType::EOF,
    ensures
        toks[i].token_type != TokenType::ATOM ==> parse_from(toks, i) == Err::<
            Seq<Seq<char>>,
            (int, Seq<char>),
        >((toks[i].line, "Expected clause."@)),
        toks[i].token_type == TokenType::ATOM && toks[i + 1].token_type != TokenType::DOT
            ==> parse_from(toks, i) == Err::<Seq<Seq<char>>, (int, Seq<char>)>(
            (toks[i + 1].line, "Expected clause."@),
        ),
{
    assert(i < toks.len() - 1 || toks[i].token_type == TokenType::EOF);
}

/// A malformed rule fails the whole parse, in general: when the first `k`
/// rules from position `i` are well formed and the rule after them is not,
/// the parse from `i` yields exactly the error of that first malformed rule,
/// with the line of the token at fault — and, the result being an error, none
/// of the `k` rules before it is returned and nothing after it is parsed.
pub proof fn lemma_first_malformed_rule_fails(toks: Seq<TokenView>, i: int, k: nat)
    requires
        wf_tokens(toks),
        0 <= i,
        i + 2 * k < toks.len(),
        forall|j: nat| j < k ==> #[trigger] good_rule_at(toks, i + 2 * j),
        toks[i + 2 * k].token_type != TokenType::EOF,
        !good_rule_at(toks, i + 2 * k),
    ensures
        parse_from(toks, i) == Err::<Seq<Seq<char>>, (int, Seq<char>)>(
            rule_error(toks, i + 2 * k),
        ),
    decreases k,
{
    if k == 0 {
        assert(i < toks.len() - 1 || toks[i].token_type == TokenType::EOF);
    } else {
        assert(good_rule_at(toks, i + 2 * 0));
        assert forall|j: nat| j < (k - 1) as nat implies #[trigger] good_rule_at(
            toks,
            (i + 2) + 2 * j,
        ) by {
            assert(good_rule_at(toks, i + 2 * (j + 1)));
        }
        assert(i + 2 + 2 * ((k - 1) as nat) == i + 2 * k);
        lemma_first_malformed_rule_fails(toks, i + 2, (k - 1) as nat);
    }
}

/// A failure after a well-formed rule aborts the whole parse with that
/// failure: no rules parsed before the failing position are returned.
pub proof fn lemma_parse_failure_propagates(toks: Seq<TokenView>, i: int)
    requires
        0 <= i,
        i + 1 < toks.len(),
        toks[i].token_type == TokenType::ATOM,
        toks[i + 1].token_type == TokenType::DOT,
        toks[i].literal matches Some(LiteralView::Atom(_)),
        parse_from(toks, i + 2) is Err,
    ensures
        parse_from(toks, i) == parse_from(toks, i + 2),
{
}

/// The literal views of a sequence of rules.
pub open spec fn rules_view(rules: Seq<Rule>) -> Seq<LiteralView> {
    rules.map_values(|r: Rule| r@)
}

/// Atom names as literal views.
pub open spec fn atoms_of(names: Seq<Seq<char>>) -> Seq<LiteralView> {
    names.map_values(|a: Seq<char>| LiteralView::Atom(a))
}

/// Consumes a token sequence with one-token lookahead and produces the
/// program's rules.
pub struct Parser {
    tokens: Vec<Token>,
    current: usize,
}

impl Parser {
    /// The views of the tokens this parser holds.
    pub closed spec fn tokens_seq(&self) -> Seq<TokenView> {
        tokens_view(self.tokens@)
    }

    /// The cursor: the position of the next token to consider.
    pub closed spec fn pos(&self) -> int {
        self.current as int
    }

    /// The parser's internal invariant: the tokens are well formed and the
    /// cursor never passes the end-of-input token.
    pub closed spec fn wf(&self) -> bool {
        &&& wf_tokens(self.tokens_seq())
        &&& self.current < self.tokens@.len()
    }

    /// Builds a parser over a scanned token sequence, at its start.
    pub fn new(tokens: Vec<Token>) -> (p: Parser)
        requires
            wf_tokens(tokens_view(tokens@)),
        ensures
            p.wf(),
            p.tokens_seq() == tokens_view(tokens@),
            p.pos() == 0,
    {
        Parser { tokens, current: 0 }
    }

    fn peek(&self) -> (t: Token)
        requires
            self.wf(),
        ensures
            t@ == self.tokens_seq()[self.pos()],
    {
        self.tokens[self.current].clone()
    }

    fn previous(&self) -> (t: Token)
        requires
            self.wf(),
            self.current >= 1,
        ensures
            t@ == self.tokens_seq()[self.pos() - 1],
    {
        self.tokens[self.current - 1].clone()
    }

    fn is_at_end(&self) -> (r: bool)
        requires
            self.wf(),
        ensures
            r == (self.tokens_seq()[self.pos()].token_type == TokenType::EOF),
    {
        self.peek().token_type == TokenType::EOF
    }

    fn check(&self, token_type: TokenType) -> (r: bool)
        requires
            self.wf(),
        ensures
            r == (self.tokens_seq()[self.pos()].token_type != TokenType::EOF
                && self.tokens_seq()[self.pos()].token_type == token_type),
    {
        if self.is_at_end() {
            return false;
        }
        self.peek().token_type == token_type
    }

    fn advance(&mut self) -> (t: Token)
        requires
            old(self).wf(),
            old(self).tokens_seq()[old(self).pos()].token_type != TokenType::EOF,
        ensures
            final(self).wf(),
            final(self).tokens_seq() == old(self).tokens_seq(),
            final(self).pos() == old(self).pos() + 1,
            t@ == old(self).tokens_seq()[old(self).pos()],
    {
        // reading the length tells the prover the cursor increment fits in usize
        let _len = self.tokens.len();
        if !self.is_at_end() {
            self.current = self.current + 1;
        }
        self.previous()
    }

    fn token_match(&mut self, token_types: Vec<TokenType>) -> (r: bool)
        requires
            old(self).wf(),
        ensures
            final(self).wf(),
            final(self).tokens_seq() == old(self).tokens_seq(),
            r == (old(self).tokens_seq()[old(self).pos()].token_type != TokenType::EOF
                && token_types@.contains(old(self).tokens_seq()[old(self).pos()].token_type)),
            final(self).pos() == (if r {
                old(self).pos() + 1
            } else {
                old(self).pos()
            }),
    {
        let ghost cur = self.tokens_seq()[self.pos()].token_type;
        let mut k: usize = 0;
        while k < token_types.len()
            invariant
                *self == *old(self),
                self.wf(),
                cur == old(self).tokens_seq()[old(self).pos()].token_type,
                0 <= k <= token_types@.len(),
                forall|j: int| 0 <= j < k ==> #[trigger] token_types@[j] != cur || cur
                    == TokenType::EOF,
            decreases token_types@.len() - k,
        {
            let tt = token_types[k];
            let matched = self.check(tt);
            if matched {
                self.advance();
                return true;
            }
            proof {
                assert(token_types@[k as int] == tt);
                assert(cur == TokenType::EOF || token_types@[k as int] != cur);
            }
            k = k + 1;
        }
        false
    }

    #[allow(dead_code)]
    fn consume(&mut self, token_type: TokenType, message: &str) -> (r: Result<Token, PrologError>)
        requires
            old(self).wf(),
        ensures
            final(self).wf(),
            final(self).tokens_seq() == old(self).tokens_seq(),
            ({
                let cur = old(self).tokens_seq()[old(self).pos()];
                if cur.token_type != TokenType::EOF && cur.token_type == token_type {
                    r matches Ok(t) && t@ == cur && final(self).pos() == old(self).pos() + 1
                } else {
                    r matches Err(PrologError::ParserError(l, m)) && l as int == cur.line && m@
                        == message@ && final(self).pos() == old(self).pos()
                }
            }),
    {
        if self.check(token_type) {
            return Ok(self.advance());
        }
        Err(PrologError::ParserError(self.tokens_line_number(), message.to_owned()))
    }

    fn tokens_line_number(&self) -> (l: usize)
        requires
            self.wf(),
        ensures
            l as int == self.tokens_seq()[self.pos()].line,
    {
        let token = self.peek();
        token.line
    }

    fn atom(&self) -> (r: Result<LiteralObj, PrologError>)
        requires
            self.wf(),
            self.pos() >= 1,
        ensures
            ({
                let prev = self.tokens_seq()[self.pos() - 1];
                let cur = self.tokens_seq()[self.pos()];
                match prev.literal {
                    Option::None => r matches Err(PrologError::ParserError(l, m)) && l as int
                        == prev.line && m@ == "Invalid atom."@,
                    Option::Some(LiteralView::Atom(a)) => r matches Ok(obj) && obj@
                        == LiteralView::Atom(a),
                    Option::Some(_) => r matches Err(PrologError::ParserError(l, m)) && l as int
                        == cur.line && m@ == "Expected atom."@,
                }
            }),
    {
        let atom = self.previous();
        let literal = match atom.literal {
            Some(l) => l,
            None => {
                return Err(PrologError::ParserError(atom.line, "Invalid atom.".to_owned()));
            },
        };
        match literal {
            Literal::Atom(a) => Ok(LiteralObj::new(Literal::Atom(a))),
            _ => Err(
                PrologError::ParserError(self.tokens_line_number(), "Expected atom.".to_owned()),
            ),
        }
    }

    fn unit_clause(&mut self) -> (r: Result<UnitClause, PrologError>)
        requires
            old(self).wf(),
            old(self).pos() >= 1,
            old(self).tokens_seq()[old(self).pos()].token_type == TokenType::DOT,
        ensures
            final(self).wf(),
            final(self).tokens_seq() == old(self).tokens_seq(),
            ({
                let prev = old(self).tokens_seq()[old(self).pos() - 1];
                let cur = old(self).tokens_seq()[old(self).pos()];
                match prev.literal {
                    Option::None => r matches Err(PrologError::ParserError(l, m)) && l as int
                        == prev.line && m@ == "Invalid atom."@,
                    Option::Some(LiteralView::Atom(a)) => r matches Ok(uc) && uc@
                        == LiteralView::Atom(a) && final(self).pos() == old(self).pos() + 1,
                    Option::Some(_) => r matches Err(PrologError::ParserError(l, m)) && l as int
                        == cur.line && m@ == "Expected atom."@,
                }
            }),
    {
        let atom = self.atom()?;
        self.advance();
        Ok(UnitClause::new(atom))
    }

    fn rule(&mut self) -> (r: Result<Rule, PrologError>)
        requires
            old(self).wf(),
            old(self).tokens_seq()[old(self).pos()].token_type != TokenType::EOF,
        ensures
            final(self).wf(),
            final(self).tokens_seq() == old(self).tokens_seq(),
            ({
                let toks = old(self).tokens_seq();
                let i = old(self).pos();
                match r {
                    Ok(rl) => {
                        &&& toks[i].token_type == TokenType::ATOM
                        &&& i + 1 < toks.len()
                        &&& toks[i + 1].token_type == TokenType::DOT
                        &&& toks[i].literal matches Some(LiteralView::Atom(a)) && rl@
                            == LiteralView::Atom(a)
                        &&& final(self).pos() == i + 2
                    },
                    Err(e) => {
                        &&& !good_rule_at(toks, i)
                        &&& parse_from(toks, i) matches Err(le) && e matches
                            PrologError::ParserError(l, m) && l as int == le.0 && m@ == le.1
                    },
                }
            }),
    {
        if self.token_match(vec![TokenType::ATOM]) {
            if self.peek().token_type == TokenType::DOT {
                let unit_clause = self.unit_clause()?;
                return Ok(Rule::new(unit_clause));
            }
        }
        Err(PrologError::ParserError(self.tokens_line_number(), "Expected clause.".to_owned()))
    }

    /// Parses rules until the end-of-input token, or fails on the first
    /// malformed rule. The error carries the line of the offending token and
    /// no rules accompany it.
    pub fn parse(&mut self) -> (r: Result<Vec<Rule>, PrologError>)
        requires
            old(self).wf(),
        ensures
            final(self).wf(),
            final(self).tokens_seq() == old(self).tokens_seq(),
            ({
                let res = parse_from(old(self).tokens_seq(), old(self).pos());
                match r {
                    Ok(rules) => res matches Ok(names) && rules_view(rules@) == atoms_of(names),
                    Err(e) => res matches Err(le) && e matches PrologError::ParserError(l, m) && l
                        as int == le.0 && m@ == le.1,
                }
            }),
    {
        let ghost toks = self.tokens_seq();
        let ghost pos0 = self.pos();
        let mut rules: Vec<Rule> = Vec::new();
        proof {
            assert(rules_view(rules@) =~= Seq::<LiteralView>::empty());
        }
        while !self.is_at_end()
            invariant
                self.wf(),
                self.tokens_seq() == toks,
                toks == old(self).tokens_seq(),
                pos0 == old(self).pos(),
                0 <= pos0 <= self.pos(),
                ({
                    let res0 = parse_from(toks, pos0);
                    let rest = parse_from(toks, self.pos());
                    match rest {
                        Ok(rest_names) => res0 matches Ok(all) && atoms_of(all) == rules_view(
                            rules@,
                        ) + atoms_of(rest_names),
                        Err(le) => res0 == rest,
                    }
                }),
            decreases toks.len() - self.pos(),
        {
            let ghost i = self.pos();
            let ghost pre_rules = rules@;
            let next = self.rule();
            match next {
                Ok(rl) => {
                    rules.push(rl);
                    proof {
                        let a = toks[i].literal->Some_0->Atom_0;
                        assert(rules_view(rules@) =~= rules_view(pre_rules).push(
                            LiteralView::Atom(a),
                        ));
                        match parse_from(toks, i + 2) {
                            Ok(r2) => {
                                assert(parse_from(toks, i) == Ok::<_, (int, Seq<char>)>(
                                    seq![a] + r2,
                                ));
                                assert(atoms_of(seq![a] + r2) =~= seq![LiteralView::Atom(a)]
                                    + atoms_of(r2));
                                assert(rules_view(pre_rules) + (seq![LiteralView::Atom(a)]
                                    + atoms_of(r2)) =~= rules_view(rules@) + atoms_of(r2));
                            },
                            Err(le) => {
                                assert(parse_from(toks, i) == Err::<Seq<Seq<char>>, _>(le));
                            },
                        }
                    }
                },
                Err(e) => {
                    proof {
                        let res0 = parse_from(toks, pos0);
                        let rest = parse_from(toks, i);
                        assert(rest is Err);
                        assert(res0 == rest);
                    }
                    return Err(e);
                },
            }
        }
        proof {
            assert(atoms_of(Seq::<Seq<char>>::empty()) =~= Seq::<LiteralView>::empty());
            let res0 = parse_from(toks, pos0);
            if res0 is Ok {
                assert(atoms_of(res0->Ok_0) =~= rules_view(rules@));
            }
        }
        Ok(rules)
    }
}

} // verus!
