use vstd::prelude::*;

use crate::lexer::{
    LexError, TokenV, cons_token, digit_run, is_digit, is_upper, is_white_space, lex, line_len,
    prefix_tokens, symbol_token,
};
use crate::parser::{FormulaV, after_first, connect, first_token, parse_tokens, sentence};
use crate::pipeline::read;
use crate::printer::{connective_text, show, token_text};

verus! {

/// A name that the lexer reads as one atom: an uppercase ASCII letter followed by
/// decimal digits.
pub open spec fn is_atom_name(n: Seq<char>) -> bool {
    &&& n.len() >= 1
    &&& is_upper(n[0])
    &&& forall|i: int| 1 <= i < n.len() ==> is_digit(#[trigger] n[i])
}

/// Every atom of `f` has a name that the lexer reads as one atom.
pub open spec fn atom_names_ok(f: FormulaV) -> bool
    decreases f,
{
    match f {
        FormulaV::Atom(n) => is_atom_name(n),
        FormulaV::Not(a) => atom_names_ok(*a),
        FormulaV::And(l, r) => atom_names_ok(*l) && atom_names_ok(*r),
        FormulaV::Or(l, r) => atom_names_ok(*l) && atom_names_ok(*r),
        FormulaV::Implies(l, r) => atom_names_ok(*l) && atom_names_ok(*r),
        FormulaV::Iff(l, r) => atom_names_ok(*l) && atom_names_ok(*r),
    }
}

pub open spec fn connective_token(f: FormulaV) -> TokenV {
    match f {
        FormulaV::Or(_, _) => TokenV::Or,
        FormulaV::Implies(_, _) => TokenV::Implies,
        FormulaV::Iff(_, _) => TokenV::Iff,
        _ => TokenV::And,
    }
}

/// The tokens of the fully parenthesized spelling of `f`.
pub open spec fn tokens_of(f: FormulaV) -> Seq<TokenV>
    decreases f,
{
    match f {
        FormulaV::Atom(n) => seq![TokenV::Atom(n)],
        FormulaV::Not(a) => seq![TokenV::Not] + tokens_of(*a),
        FormulaV::And(l, r) => seq![TokenV::LeftParen] + tokens_of(*l) + seq![connective_token(f)]
            + tokens_of(*r) + seq![TokenV::RightParen],
        FormulaV::Or(l, r) => seq![TokenV::LeftParen] + tokens_of(*l) + seq![connective_token(f)]
            + tokens_of(*r) + seq![TokenV::RightParen],
        FormulaV::Implies(l, r) => seq![TokenV::LeftParen] + tokens_of(*l) + seq![
            connective_token(f),
        ] + tokens_of(*r) + seq![TokenV::RightParen],
        FormulaV::Iff(l, r) => seq![TokenV::LeftParen] + tokens_of(*l) + seq![connective_token(f)]
            + tokens_of(*r) + seq![TokenV::RightParen],
    }
}

/// Text that cannot continue an atom's digits.
pub open spec fn no_digit_first(s: Seq<char>) -> bool {
    s.len() == 0 || !is_digit(s[0])
}

proof fn lemma_digit_run_concat(ds: Seq<char>, s: Seq<char>)
    requires
        forall|i: int| 0 <= i < ds.len() ==> is_digit(#[trigger] ds[i]),
        no_digit_first(s),
    ensures
        digit_run(ds + s) == ds.len(),
    decreases ds.len(),
{
    if ds.len() == 0 {
        assert(ds + s =~= s);
    } else {
        assert((ds + s)[0] == ds[0]);
        assert((ds + s).drop_first() =~= ds.drop_first() + s);
        assert forall|i: int| 0 <= i < ds.drop_first().len() implies is_digit(
            #[trigger] ds.drop_first()[i],
        ) by {
            assert(ds.drop_first()[i] == ds[i + 1]);
        }
        lemma_digit_run_concat(ds.drop_first(), s);
    }
}

proof fn lemma_prefix_prefix(a: Seq<TokenV>, b: Seq<TokenV>, r: Result<Seq<TokenV>, LexError>)
    ensures
        prefix_tokens(a, prefix_tokens(b, r)) == prefix_tokens(a + b, r),
        cons_token(a[0], r) == prefix_tokens(seq![a[0]], r),
{
    if let Ok(ts) = r {
        assert(a + (b + ts) =~= (a + b) + ts);
    }
}

/// The connective text lexes to the connective's token.
proof fn lemma_lex_connective(f: FormulaV, t: Seq<char>)
    requires
        f is And || f is Or || f is Implies || f is Iff,
    ensures
        lex(connective_text(f) + t) == cons_token(connective_token(f), lex(t)),
{
    let ct = connective_text(f);
    let x = ct + t;
    assert(x[0] == ' ');
    assert(is_white_space(' '));
    let x1 = x.drop_first();
    let sym = ct[1];
    assert(x1[0] == sym);
    assert(symbol_token(sym) == Some(connective_token(f)));
    let x2 = x1.drop_first();
    assert(x2[0] == ' ');
    let x3 = x2.drop_first();
    assert(!is_white_space(sym));
    assert(lex(x) == lex(x1));
    assert(lex(x1) == cons_token(connective_token(f), lex(x2)));
    assert(lex(x2) == lex(x3));
    if f is And || f is Or {
        assert(x3 =~= t);
    } else {
        assert(x3[0] == ' ');
        assert(x3.drop_first() =~= t);
        assert(lex(x3) == lex(t));
    }
}

/// Lexing the canonical text of a sentence gives its tokens.
pub proof fn lemma_lex_show(f: FormulaV, s: Seq<char>)
    requires
        atom_names_ok(f),
        no_digit_first(s),
    ensures
        lex(show(f) + s) == prefix_tokens(tokens_of(f), lex(s)),
    decreases f,
{
    let x = show(f) + s;
    match f {
        FormulaV::Atom(n) => {
            let rest = x.drop_first();
            assert(x[0] == n[0]);
            let ds = n.drop_first();
            assert(rest =~= ds + s);
            assert forall|i: int| 0 <= i < ds.len() implies is_digit(#[trigger] ds[i]) by {
                assert(ds[i] == n[i + 1]);
            }
            lemma_digit_run_concat(ds, s);
            assert(!is_white_space(n[0]));
            assert(symbol_token(n[0]) is None);
            assert(seq![n[0]] + rest.take(ds.len() as int) =~= n);
            assert(rest.skip(ds.len() as int) =~= s);
            lemma_prefix_prefix(seq![TokenV::Atom(n)], seq![], lex(s));
        },
        FormulaV::Not(a) => {
            assert(x[0] == '\u{ac}');
            assert(x.drop_first() =~= show(*a) + s);
            lemma_lex_show(*a, s);
            lemma_prefix_prefix(seq![TokenV::Not], tokens_of(*a), lex(s));
        },
        FormulaV::And(l, r) => {
            let t_r = seq![')'] + s;
            let t_l = connective_text(f) + show(*r) + t_r;
            assert(t_l[0] == ' ');
            lemma_lex_show(*l, t_l);
            lemma_lex_show(*r, t_r);
            lemma_lex_binary(f, *l, *r, s);
        },
        FormulaV::Or(l, r) => {
            let t_r = seq![')'] + s;
            let t_l = connective_text(f) + show(*r) + t_r;
            assert(t_l[0] == ' ');
            lemma_lex_show(*l, t_l);
            lemma_lex_show(*r, t_r);
            lemma_lex_binary(f, *l, *r, s);
        },
        FormulaV::Implies(l, r) => {
            let t_r = seq![')'] + s;
            let t_l = connective_text(f) + show(*r) + t_r;
            assert(t_l[0] == ' ');
            lemma_lex_show(*l, t_l);
            lemma_lex_show(*r, t_r);
            lemma_lex_binary(f, *l, *r, s);
        },
        FormulaV::Iff(l, r) => {
            let t_r = seq![')'] + s;
            let t_l = connective_text(f) + show(*r) + t_r;
            assert(t_l[0] == ' ');
            lemma_lex_show(*l, t_l);
            lemma_lex_show(*r, t_r);
            lemma_lex_binary(f, *l, *r, s);
        },
    }
}

/// Lexing a text that starts with a one-character symbol.
proof fn lemma_lex_symbol(x: Seq<char>)
    requires
        x.len() > 0,
        !is_white_space(x[0]),
        symbol_token(x[0]) is Some,
    ensures
        lex(x) == cons_token(symbol_token(x[0])->0, lex(x.drop_first())),
{
}

#[verifier::spinoff_prover]
#[verifier::rlimit(40)]
proof fn lemma_lex_binary(f: FormulaV, l: FormulaV, r: FormulaV, s: Seq<char>)
    requires
        f is And || f is Or || f is Implies || f is Iff,
        show(f) == seq!['('] + show(l) + connective_text(f) + show(r) + seq![')'],
        tokens_of(f) == seq![TokenV::LeftParen] + tokens_of(l) + seq![connective_token(f)]
            + tokens_of(r) + seq![TokenV::RightParen],
        ({
            let t_r = seq![')'] + s;
            let t_l = connective_text(f) + show(r) + t_r;
            &&& lex(show(l) + t_l) == prefix_tokens(tokens_of(l), lex(t_l))
            &&& lex(show(r) + t_r) == prefix_tokens(tokens_of(r), lex(t_r))
        }),
    ensures
        lex(show(f) + s) == prefix_tokens(tokens_of(f), lex(s)),
{
    let t_r = seq![')'] + s;
    let ct = connective_text(f);
    let t_l = ct + show(r) + t_r;
    let x = show(f) + s;
    assert(x[0] == '(');
    assert(x.drop_first() =~= show(l) + t_l);
    lemma_lex_symbol(x);
    assert(t_l =~= ct + (show(r) + t_r));
    lemma_lex_connective(f, show(r) + t_r);
    assert(t_r[0] == ')');
    assert(t_r.drop_first() =~= s);
    lemma_lex_symbol(t_r);
    match lex(s) {
        Ok(ts) => {
            assert(tokens_of(f) + ts =~= seq![TokenV::LeftParen] + (tokens_of(l) + (seq![
                connective_token(f),
            ] + (tokens_of(r) + (seq![TokenV::RightParen] + ts)))));
        },
        Err(e) => {},
    }
}


proof fn lemma_sentence_binary(f: FormulaV, l: FormulaV, r: FormulaV, rest: Seq<TokenV>)
    requires
        f is And || f is Or || f is Implies || f is Iff,
        f == connect(Some(connective_token(f)), l, r)->0,
        connect(Some(connective_token(f)), l, r) is Some,
        tokens_of(f) == seq![TokenV::LeftParen] + tokens_of(l) + seq![connective_token(f)]
            + tokens_of(r) + seq![TokenV::RightParen],
        ({
            let r_r = seq![TokenV::RightParen] + rest;
            let r_l = seq![connective_token(f)] + tokens_of(r) + r_r;
            &&& sentence(tokens_of(l) + r_l) == (Ok::<FormulaV, crate::parser::ParseErrorV>(l), r_l)
            &&& sentence(tokens_of(r) + r_r) == (Ok::<FormulaV, crate::parser::ParseErrorV>(r), r_r)
        }),
    ensures
        sentence(tokens_of(f) + rest) == (Ok::<FormulaV, crate::parser::ParseErrorV>(f), rest),
{
    let r_r = seq![TokenV::RightParen] + rest;
    let r_l = seq![connective_token(f)] + tokens_of(r) + r_r;
    let ts = tokens_of(f) + rest;
    assert(ts[0] == TokenV::LeftParen);
    assert(ts.drop_first() =~= tokens_of(l) + r_l);
    assert(first_token(r_l) == Some(connective_token(f)));
    assert(after_first(r_l) =~= tokens_of(r) + r_r);
    assert(first_token(r_r) == Some(TokenV::RightParen));
    assert(after_first(r_r) =~= rest);
}

/// Reading the tokens of a sentence gives back the sentence and leaves what
/// follows them.
pub proof fn lemma_sentence_tokens(f: FormulaV, rest: Seq<TokenV>)
    ensures
        sentence(tokens_of(f) + rest) == (Ok::<FormulaV, crate::parser::ParseErrorV>(f), rest),
    decreases f,
{
    let ts = tokens_of(f) + rest;
    match f {
        FormulaV::Atom(n) => {
            assert(ts[0] == TokenV::Atom(n));
            assert(ts.drop_first() =~= rest);
        },
        FormulaV::Not(a) => {
            assert(ts[0] == TokenV::Not);
            assert(ts.drop_first() =~= tokens_of(*a) + rest);
            lemma_sentence_tokens(*a, rest);
        },
        FormulaV::And(l, r) => {
            let r_r = seq![TokenV::RightParen] + rest;
            lemma_sentence_tokens(*l, seq![connective_token(f)] + tokens_of(*r) + r_r);
            lemma_sentence_tokens(*r, r_r);
            lemma_sentence_binary(f, *l, *r, rest);
        },
        FormulaV::Or(l, r) => {
            let r_r = seq![TokenV::RightParen] + rest;
            lemma_sentence_tokens(*l, seq![connective_token(f)] + tokens_of(*r) + r_r);
            lemma_sentence_tokens(*r, r_r);
            lemma_sentence_binary(f, *l, *r, rest);
        },
        FormulaV::Implies(l, r) => {
            let r_r = seq![TokenV::RightParen] + rest;
            lemma_sentence_tokens(*l, seq![connective_token(f)] + tokens_of(*r) + r_r);
            lemma_sentence_tokens(*r, r_r);
            lemma_sentence_binary(f, *l, *r, rest);
        },
        FormulaV::Iff(l, r) => {
            let r_r = seq![TokenV::RightParen] + rest;
            lemma_sentence_tokens(*l, seq![connective_token(f)] + tokens_of(*r) + r_r);
            lemma_sentence_tokens(*r, r_r);
            lemma_sentence_binary(f, *l, *r, rest);
        },
    }
}

/// Output is canonical and reads back: the printed text of a sentence whose atoms
/// are well-formed names is read as that same sentence.
pub proof fn law_print_then_read(f: FormulaV)
    requires
        atom_names_ok(f),
    ensures
        read(show(f)) == Ok::<FormulaV, crate::pipeline::PipelineErrorV>(f),
{
    let empty = Seq::<char>::empty();
    lemma_lex_show(f, empty);
    assert(show(f) + empty =~= show(f));
    assert(lex(empty) == Ok::<Seq<TokenV>, LexError>(seq![]));
    assert(tokens_of(f) + Seq::<TokenV>::empty() =~= tokens_of(f));
    lemma_sentence_tokens(f, seq![]);
}


/// Every atom token among `ts` has a well-formed name.
pub open spec fn atom_tokens_ok(ts: Seq<TokenV>) -> bool {
    forall|i: int| 0 <= i < ts.len() && #[trigger] ts[i] is Atom ==> is_atom_name(ts[i]->Atom_0)
}

proof fn lemma_digit_run_digits(s: Seq<char>)
    ensures
        digit_run(s) <= s.len(),
        forall|i: int| 0 <= i < digit_run(s) ==> is_digit(#[trigger] s[i]),
    decreases s.len(),
{
    if s.len() > 0 && is_digit(s[0]) {
        lemma_digit_run_digits(s.drop_first());
        assert forall|i: int| 0 <= i < digit_run(s) implies is_digit(#[trigger] s[i]) by {
            if i > 0 {
                assert(s[i] == s.drop_first()[i - 1]);
            }
        }
    }
}

proof fn lemma_cons_ok(t: TokenV, r: Result<Seq<TokenV>, LexError>)
    requires
        t is Atom ==> is_atom_name(t->Atom_0),
        r is Ok ==> atom_tokens_ok(r->Ok_0),
    ensures
        cons_token(t, r) is Ok ==> atom_tokens_ok(cons_token(t, r)->Ok_0),
{
    if let Ok(ts) = r {
        let all = seq![t] + ts;
        assert forall|i: int| 0 <= i < all.len() && #[trigger] all[i] is Atom implies is_atom_name(
            all[i]->Atom_0,
        ) by {
            if i > 0 {
                assert(all[i] == ts[i - 1]);
            }
        }
    }
}

/// The lexer only makes atom tokens with well-formed names.
pub proof fn lemma_lex_atoms_ok(s: Seq<char>)
    ensures
        lex(s) is Ok ==> atom_tokens_ok(lex(s)->Ok_0),
    decreases s.len(),
{
    if s.len() > 0 {
        let c = s[0];
        let rest = s.drop_first();
        if is_white_space(c) {
            lemma_lex_atoms_ok(rest);
        } else if symbol_token(c) is Some {
            lemma_lex_atoms_ok(rest);
            lemma_cons_ok(symbol_token(c)->0, lex(rest));
        } else if c == '-' {
            if rest.len() > 0 && rest[0] == '>' {
                lemma_lex_atoms_ok(rest.drop_first());
                lemma_cons_ok(TokenV::Implies, lex(rest.drop_first()));
            } else if rest.len() > 0 && rest[0] == '-' {
                let body = rest.drop_first();
                crate::lexer::lemma_line_len_bound(body);
                lemma_lex_atoms_ok(body.skip(crate::lexer::line_len(body) as int));
            }
        } else if c == '<' {
            if rest.len() > 1 && rest[0] == '-' && rest[1] == '>' {
                lemma_lex_atoms_ok(rest.skip(2));
                lemma_cons_ok(TokenV::Iff, lex(rest.skip(2)));
            }
        } else if is_upper(c) {
            lemma_digit_run_digits(rest);
            let k = digit_run(rest) as int;
            let name = seq![c] + rest.take(k);
            assert forall|i: int| 1 <= i < name.len() implies is_digit(#[trigger] name[i]) by {
                assert(name[i] == rest[i - 1]);
            }
            lemma_lex_atoms_ok(rest.skip(k));
            lemma_cons_ok(TokenV::Atom(name), lex(rest.skip(k)));
        }
    }
}

proof fn lemma_suffix_ok(ts: Seq<TokenV>)
    requires
        atom_tokens_ok(ts),
    ensures
        atom_tokens_ok(after_first(ts)),
{
    if ts.len() > 0 {
        let r = ts.drop_first();
        assert forall|i: int| 0 <= i < r.len() && #[trigger] r[i] is Atom implies is_atom_name(
            r[i]->Atom_0,
        ) by {
            assert(r[i] == ts[i + 1]);
        }
    }
}

/// The parser builds sentences only from the atom tokens it reads.
pub proof fn lemma_sentence_atoms_ok(ts: Seq<TokenV>)
    requires
        atom_tokens_ok(ts),
    ensures
        sentence(ts).0 is Ok ==> atom_names_ok(sentence(ts).0->Ok_0),
        atom_tokens_ok(sentence(ts).1),
    decreases ts.len(),
{
    crate::parser::lemma_sentence_consumes(ts);
    if ts.len() > 0 {
        let rest = ts.drop_first();
        lemma_suffix_ok(ts);
        match ts[0] {
            TokenV::Atom(n) => {
                assert(ts[0] is Atom);
            },
            TokenV::Not => {
                lemma_sentence_atoms_ok(rest);
            },
            TokenV::LeftParen => {
                lemma_sentence_atoms_ok(rest);
                let r1 = sentence(rest).1;
                crate::parser::lemma_sentence_consumes(rest);
                if sentence(rest).0 is Ok {
                    lemma_suffix_ok(r1);
                    lemma_sentence_atoms_ok(after_first(r1));
                    let r3 = sentence(after_first(r1)).1;
                    lemma_suffix_ok(r3);
                }
            },
            _ => {},
        }
    }
}

/// Input is liberal, output is canonical: whatever text is read as a sentence,
/// the printed form of that sentence is read as the same sentence.
pub proof fn law_read_print_read(s: Seq<char>)
    ensures
        read(s) is Ok ==> read(show(read(s)->Ok_0)) == read(s),
{
    if read(s) is Ok {
        let ts = lex(s)->Ok_0;
        lemma_lex_atoms_ok(s);
        lemma_sentence_atoms_ok(ts);
        law_print_then_read(read(s)->Ok_0);
    }
}


/// Every sentence has exactly one reading: the tokens of its fully parenthesized
/// spelling are read back as that sentence and nothing else, with no token left.
pub proof fn law_unique_reading(f: FormulaV)
    ensures
        parse_tokens(tokens_of(f)) == (
            Ok::<FormulaV, crate::parser::ParseErrorV>(f),
            Seq::<TokenV>::empty(),
        ),
{
    lemma_sentence_tokens(f, seq![]);
    assert(tokens_of(f) + Seq::<TokenV>::empty() =~= tokens_of(f));
}


/// Tokens written out in order, separated by single spaces.
pub open spec fn spell_tokens(ts: Seq<TokenV>) -> Seq<char>
    decreases ts.len(),
{
    if ts.len() == 0 {
        seq![]
    } else if ts.len() == 1 {
        token_text(ts[0])
    } else {
        token_text(ts[0]) + seq![' '] + spell_tokens(ts.drop_first())
    }
}

proof fn lemma_lex_token(t: TokenV, s: Seq<char>)
    requires
        t is Atom ==> is_atom_name(t->Atom_0),
        no_digit_first(s),
    ensures
        lex(token_text(t) + s) == cons_token(t, lex(s)),
{
    match t {
        TokenV::Atom(n) => {
            lemma_lex_show(FormulaV::Atom(n), s);
            lemma_prefix_prefix(seq![t], seq![], lex(s));
            assert(seq![t] + Seq::<TokenV>::empty() =~= seq![t]);
        },
        _ => {
            let x = token_text(t) + s;
            assert(x[0] == token_text(t)[0]);
            assert(x.drop_first() =~= s);
            lemma_lex_symbol(x);
        },
    }
}

/// Tokens written out with spaces between them are lexed as those tokens, provided
/// that every atom has a well-formed name.
pub proof fn law_spelled_tokens(ts: Seq<TokenV>)
    requires
        atom_tokens_ok(ts),
    ensures
        lex(spell_tokens(ts)) == Ok::<Seq<TokenV>, LexError>(ts),
    decreases ts.len(),
{
    if ts.len() == 0 {
        assert(lex(Seq::<char>::empty()) == Ok::<Seq<TokenV>, LexError>(seq![]));
        assert(ts =~= Seq::<TokenV>::empty());
    } else {
        assert(ts[0] is Atom ==> is_atom_name(ts[0]->Atom_0));
        if ts.len() == 1 {
            let e = Seq::<char>::empty();
            lemma_lex_token(ts[0], e);
            assert(token_text(ts[0]) + e =~= token_text(ts[0]));
            assert(seq![ts[0]] + Seq::<TokenV>::empty() =~= ts);
        } else {
            let rest = ts.drop_first();
            lemma_suffix_ok(ts);
            law_spelled_tokens(rest);
            let tail = seq![' '] + spell_tokens(rest);
            lemma_lex_token(ts[0], tail);
            assert(token_text(ts[0]) + seq![' '] + spell_tokens(rest) =~= token_text(ts[0]) + tail);
            assert(tail[0] == ' ' && is_white_space(' '));
            assert(tail.drop_first() =~= spell_tokens(rest));
            assert(lex(tail) == lex(spell_tokens(rest)));
            assert(seq![ts[0]] + rest =~= ts);
        }
    }
}

/// The text `s` with some of its ASCII connectives rewritten in the book's symbols:
/// a lexeme `~`, `!`, `&`, `|`, `->` or `<->` that starts at position `at + i`
/// of the whole text (`s[i]`) is rewritten exactly when `pick(at + i)`. Comments,
/// atoms and whitespace are kept as they are, and so is the text from a lexical
/// error on.
pub open spec fn respell(s: Seq<char>, pick: spec_fn(int) -> bool, at: int) -> Seq<char>
    decreases s.len(),
{
    if s.len() == 0 {
        s
    } else {
        let c = s[0];
        let rest = s.drop_first();
        if is_white_space(c) {
            seq![c] + respell(rest, pick, at + 1)
        } else if symbol_token(c) is Some {
            let d = if pick(at) && (c == '~' || c == '!') {
                '\u{ac}'
            } else if pick(at) && c == '&' {
                '\u{2227}'
            } else if pick(at) && c == '|' {
                '\u{2228}'
            } else {
                c
            };
            seq![d] + respell(rest, pick, at + 1)
        } else if c == '-' && rest.len() > 0 && rest[0] == '>' {
            (if pick(at) {
                seq!['\u{2192}']
            } else {
                seq!['-', '>']
            }) + respell(rest.drop_first(), pick, at + 2)
        } else if c == '-' && rest.len() > 0 && rest[0] == '-' {
            let body = rest.drop_first();
            proof {
                crate::lexer::lemma_line_len_bound(body);
            }
            let k = line_len(body);
            s.take(k + 2int) + respell(body.skip(k as int), pick, at + 2 + k)
        } else if c == '<' && rest.len() > 1 && rest[0] == '-' && rest[1] == '>' {
            (if pick(at) {
                seq!['\u{2194}']
            } else {
                seq!['<', '-', '>']
            }) + respell(rest.skip(2), pick, at + 3)
        } else if is_upper(c) {
            proof {
                crate::lexer::lemma_digit_run_bound(rest);
            }
            let k = digit_run(rest);
            seq![c] + rest.take(k as int) + respell(rest.skip(k as int), pick, at + 1 + k)
        } else {
            s
        }
    }
}

proof fn lemma_line_len_chars(s: Seq<char>)
    ensures
        line_len(s) <= s.len(),
        forall|i: int| 0 <= i < line_len(s) ==> s[i] != '\n',
        line_len(s) < s.len() ==> s[line_len(s) as int] == '\n',
    decreases s.len(),
{
    if s.len() > 0 && s[0] != '\n' {
        lemma_line_len_chars(s.drop_first());
        assert forall|i: int| 0 <= i < line_len(s) implies s[i] != '\n' by {
            if i > 0 {
                assert(s[i] == s.drop_first()[i - 1]);
            }
        }
        if line_len(s) < s.len() {
            assert(s[line_len(s) as int] == s.drop_first()[line_len(s) - 1]);
        }
    }
}

/// Rewriting keeps the first character, or puts a connective symbol there.
proof fn lemma_respell_first(s: Seq<char>, pick: spec_fn(int) -> bool, at: int)
    ensures
        s.len() == 0 ==> respell(s, pick, at).len() == 0,
        s.len() > 0 ==> respell(s, pick, at).len() > 0 && (respell(s, pick, at)[0] == s[0]
            || symbol_token(respell(s, pick, at)[0]) is Some),
{
    if s.len() > 0 {
        let c = s[0];
        let rest = s.drop_first();
        let r = respell(s, pick, at);
        if is_white_space(c) {
            assert(r[0] == c);
        } else if symbol_token(c) is Some {
            assert(symbol_token('\u{ac}') is Some);
            assert(symbol_token('\u{2227}') is Some);
            assert(symbol_token('\u{2228}') is Some);
        } else if c == '-' && rest.len() > 0 && rest[0] == '>' {
            assert(symbol_token('\u{2192}') is Some);
        } else if c == '-' && rest.len() > 0 && rest[0] == '-' {
            crate::lexer::lemma_line_len_bound(rest.drop_first());
            assert(r[0] == s.take(line_len(rest.drop_first()) + 2int)[0]);
        } else if c == '<' && rest.len() > 1 && rest[0] == '-' && rest[1] == '>' {
            assert(symbol_token('\u{2194}') is Some);
        } else if is_upper(c) {
            assert(r[0] == c);
        }
    }
}

/// Rewriting ASCII connectives in the book's symbols never changes what a text
/// lexes to: the same tokens, or the same error.
pub proof fn law_respelling_keeps_tokens(s: Seq<char>, pick: spec_fn(int) -> bool, at: int)
    ensures
        lex(respell(s, pick, at)) == lex(s),
    decreases s.len(),
{
    if s.len() > 0 {
        let c = s[0];
        let rest = s.drop_first();
        let r = respell(s, pick, at);
        if is_white_space(c) {
            law_respelling_keeps_tokens(rest, pick, at + 1);
            assert(r[0] == c);
            assert(r.drop_first() =~= respell(rest, pick, at + 1));
        } else if symbol_token(c) is Some {
            law_respelling_keeps_tokens(rest, pick, at + 1);
            assert(r.drop_first() =~= respell(rest, pick, at + 1));
            assert(symbol_token(r[0]) == symbol_token(c));
            lemma_lex_symbol(r);
        } else if c == '-' && rest.len() > 0 && rest[0] == '>' {
            let tail = respell(rest.drop_first(), pick, at + 2);
            law_respelling_keeps_tokens(rest.drop_first(), pick, at + 2);
            if pick(at) {
                assert(r.drop_first() =~= tail);
                lemma_lex_symbol(r);
            } else {
                assert(r[0] == '-');
                assert(r.drop_first()[0] == '>');
                assert(r.drop_first().drop_first() =~= tail);
            }
        } else if c == '-' && rest.len() > 0 && rest[0] == '-' {
            let body = rest.drop_first();
            crate::lexer::lemma_line_len_bound(body);
            lemma_line_len_chars(body);
            let k = line_len(body);
            let tail = body.skip(k as int);
            let rt = respell(tail, pick, at + 2 + k);
            law_respelling_keeps_tokens(tail, pick, at + 2 + k);
            lemma_respell_first(tail, pick, at + 2 + k);
            assert(r[0] == '-');
            assert(r.drop_first()[0] == '-');
            let rbody = r.drop_first().drop_first();
            assert(rbody =~= body.take(k as int) + rt);
            if tail.len() > 0 {
                assert(tail[0] == '\n');
                assert(rt[0] == '\n');
            }
            assert(line_len(rt) == 0);
            crate::lexer::lemma_line_len_concat(body.take(k as int), rt);
            assert(rbody.skip(k as int) =~= rt);
            assert(lex(s) == lex(tail));
        } else if c == '<' && rest.len() > 1 && rest[0] == '-' && rest[1] == '>' {
            let tail = respell(rest.skip(2), pick, at + 3);
            law_respelling_keeps_tokens(rest.skip(2), pick, at + 3);
            if pick(at) {
                assert(r.drop_first() =~= tail);
                lemma_lex_symbol(r);
            } else {
                assert(r[0] == '<');
                assert(r.drop_first()[0] == '-' && r.drop_first()[1] == '>');
                assert(r.drop_first().skip(2) =~= tail);
            }
        } else if is_upper(c) {
            lemma_digit_run_digits(rest);
            let k = digit_run(rest);
            let tail = rest.skip(k as int);
            let rt = respell(tail, pick, at + 1 + k);
            law_respelling_keeps_tokens(tail, pick, at + 1 + k);
            lemma_respell_first(tail, pick, at + 1 + k);
            if tail.len() > 0 {
                if k < rest.len() && is_digit(rest[k as int]) {
                    lemma_digit_run_stops(rest);
                }
                assert(!is_digit(rt[0]));
            }
            let ds = rest.take(k as int);
            assert forall|i: int| 0 <= i < ds.len() implies is_digit(#[trigger] ds[i]) by {
                assert(ds[i] == rest[i]);
            }
            lemma_digit_run_concat(ds, rt);
            assert(r[0] == c);
            assert(r.drop_first() =~= ds + rt);
            assert((ds + rt).take(k as int) =~= ds);
            assert((ds + rt).skip(k as int) =~= rt);
        }
    }
}

proof fn lemma_digit_run_stops(s: Seq<char>)
    ensures
        digit_run(s) < s.len() ==> !is_digit(s[digit_run(s) as int]),
    decreases s.len(),
{
    if s.len() > 0 && is_digit(s[0]) {
        lemma_digit_run_stops(s.drop_first());
        if digit_run(s) < s.len() {
            assert(s[digit_run(s) as int] == s.drop_first()[digit_run(s) - 1]);
        }
    }
}


/// A sentence read from the front of `ts` is spelled by exactly the tokens that
/// were consumed: `ts` is its tokens followed by what is left.
pub proof fn lemma_sentence_spelled(ts: Seq<TokenV>)
    ensures
        sentence(ts).0 is Ok ==> ts == tokens_of(sentence(ts).0->Ok_0) + sentence(ts).1,
    decreases ts.len(),
{
    crate::parser::lemma_sentence_consumes(ts);
    if ts.len() > 0 && sentence(ts).0 is Ok {
        let rest = ts.drop_first();
        let f = sentence(ts).0->Ok_0;
        match ts[0] {
            TokenV::Atom(n) => {
                assert(ts =~= seq![TokenV::Atom(n)] + rest);
            },
            TokenV::Not => {
                lemma_sentence_spelled(rest);
                let a = sentence(rest).0->Ok_0;
                assert(ts =~= seq![TokenV::Not] + (tokens_of(a) + sentence(rest).1));
            },
            TokenV::LeftParen => {
                lemma_sentence_spelled(rest);
                crate::parser::lemma_sentence_consumes(rest);
                let left = sentence(rest).0->Ok_0;
                let r1 = sentence(rest).1;
                let op = first_token(r1);
                let r2 = after_first(r1);
                lemma_sentence_spelled(r2);
                let right = sentence(r2).0->Ok_0;
                let r3 = sentence(r2).1;
                let r4 = after_first(r3);
                assert(op is Some);
                assert(r1 =~= seq![op->0] + r2);
                assert(r3 =~= seq![TokenV::RightParen] + r4);
                assert(connect(op, left, right) == Some(f));
                assert(connective_token(f) == op->0);
                assert(rest == tokens_of(left) + r1);
                assert(r2 == tokens_of(right) + r3);
                assert(ts =~= seq![TokenV::LeftParen] + rest);
                assert(ts =~= seq![TokenV::LeftParen] + tokens_of(left) + seq![op->0] + tokens_of(
                    right,
                ) + seq![TokenV::RightParen] + r4);
            },
            _ => {},
        }
    }
}

/// Reading succeeds only on exactly one sentence: when a token sequence is read as
/// a sentence, the sequence is that sentence's tokens and nothing is left over.
/// With `law_unique_reading`, a token sequence reads as `f` exactly when it is
/// the tokens of `f`.
pub proof fn law_read_whole_input(ts: Seq<TokenV>)
    ensures
        parse_tokens(ts).0 is Ok ==> ts == tokens_of(parse_tokens(ts).0->Ok_0) && parse_tokens(
            ts,
        ).1.len() == 0,
{
    lemma_sentence_spelled(ts);
    if parse_tokens(ts).0 is Ok {
        assert(sentence(ts).1.len() == 0);
        assert(ts =~= tokens_of(sentence(ts).0->Ok_0));
    }
}

/// A text is read as a sentence only when it lexes to exactly that sentence's tokens.
pub proof fn law_read_whole_text(s: Seq<char>)
    ensures
        read(s) is Ok ==> lex(s) == Ok::<Seq<TokenV>, LexError>(tokens_of(read(s)->Ok_0)),
{
    if read(s) is Ok {
        law_read_whole_input(lex(s)->Ok_0);
    }
}

} // verus!
