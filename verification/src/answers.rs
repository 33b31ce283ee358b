use vstd::prelude::*;

use crate::eval::{MAX_TABLE_ATOMS, Valuation, atoms, row_count, row_entries, row_valuation, truth_value};
use crate::lexer::{LexError, TokenV, is_white_space, lex};
use crate::parser::{FormulaV, sentence};
use crate::pipeline::read;
use crate::repl::{
    LineV, ResponseV, classification_text, command_response, contra_response, emphasis,
    entail_response, entries_text, equiv_response, formula_response, line_response,
    sentence_lines, taut_response,
};
use crate::eval::{argument_atoms, is_counterexample};
use crate::repl::read_premises;
use crate::semantics::entailed;
use crate::text::{char_pos, trim, turnstile_pos, white_space_pos};

verus! {

proof fn lemma_word_then_space(w: Seq<char>, a: Seq<char>)
    requires
        forall|i: int| 0 <= i < w.len() ==> !is_white_space(#[trigger] w[i]),
    ensures
        white_space_pos(w + seq![' '] + a) == w.len(),
        white_space_pos(w) == w.len(),
    decreases w.len(),
{
    let x = w + seq![' '] + a;
    if w.len() == 0 {
        assert(x[0] == ' ');
        assert(is_white_space(' '));
    } else {
        assert(x[0] == w[0]);
        assert(!is_white_space(w[0]));
        assert(x.drop_first() =~= w.drop_first() + seq![' '] + a);
        assert forall|i: int| 0 <= i < w.drop_first().len() implies !is_white_space(
            #[trigger] w.drop_first()[i],
        ) by {
            assert(w.drop_first()[i] == w[i + 1]);
        }
        lemma_word_then_space(w.drop_first(), a);
    }
}

/// The command word `w` followed by a space and `a`: the command `w` with the
/// argument `trim(a)`.
proof fn lemma_command_split(w: Seq<char>, a: Seq<char>)
    requires
        forall|i: int| 0 <= i < w.len() ==> !is_white_space(#[trigger] w[i]),
    ensures
        ({
            let cmd = w + seq![' '] + a;
            let k = white_space_pos(cmd);
            &&& k == w.len()
            &&& k < cmd.len()
            &&& cmd.take(k as int) == w
            &&& cmd.skip(k + 1int) == a
            &&& line_response(seq![':'] + cmd) == command_response(cmd)
        }),
{
    let cmd = w + seq![' '] + a;
    lemma_word_then_space(w, a);
    assert(cmd.take(w.len() as int) =~= w);
    assert(cmd.skip(w.len() + 1int) =~= a);
    assert((seq![':'] + cmd).drop_first() =~= cmd);
}

#[verifier::spinoff_prover]
#[verifier::rlimit(40)]
proof fn lemma_taut_command(a: Seq<char>)
    ensures
        line_response(seq![':', 't', 'a', 'u', 't', ' '] + a) == taut_response(trim(a)),
{
    reveal_strlit("help");
    reveal_strlit("quit");
    reveal_strlit("taut");
    let w = seq!['t', 'a', 'u', 't'];
    lemma_command_split(w, a);
    assert(seq![':', 't', 'a', 'u', 't', ' '] + a =~= seq![':'] + (w + seq![' '] + a));
    assert(w != "help"@ && w != "quit"@);
    assert(w =~= "taut"@);
}

#[verifier::spinoff_prover]
#[verifier::rlimit(40)]
proof fn lemma_contra_command(a: Seq<char>)
    ensures
        line_response(seq![':', 'c', 'o', 'n', 't', 'r', 'a', ' '] + a) == contra_response(
            trim(a),
        ),
{
    reveal_strlit("help");
    reveal_strlit("quit");
    reveal_strlit("taut");
    reveal_strlit("contra");
    let w = seq!['c', 'o', 'n', 't', 'r', 'a'];
    lemma_command_split(w, a);
    assert(seq![':', 'c', 'o', 'n', 't', 'r', 'a', ' '] + a =~= seq![':'] + (w + seq![' '] + a));
    assert(w != "help"@ && w != "quit"@ && w != "taut"@);
    assert(w =~= "contra"@);
}

#[verifier::spinoff_prover]
#[verifier::rlimit(40)]
proof fn lemma_entails_command(a: Seq<char>)
    ensures
        line_response(seq![':', 'e', 'n', 't', 'a', 'i', 'l', 's', ' '] + a) == entail_response(
            trim(a),
        ),
        line_response(seq![':', 'e', 'n', 't', 'a', 'i', 'l', ' '] + a) == entail_response(
            trim(a),
        ),
{
    reveal_strlit("help");
    reveal_strlit("quit");
    reveal_strlit("taut");
    reveal_strlit("contra");
    reveal_strlit("entails");
    reveal_strlit("entail");
    let w = seq!['e', 'n', 't', 'a', 'i', 'l', 's'];
    lemma_command_split(w, a);
    assert(seq![':', 'e', 'n', 't', 'a', 'i', 'l', 's', ' '] + a =~= seq![':'] + (w + seq![' ']
        + a));
    assert(w != "help"@ && w != "quit"@ && w != "taut"@ && w != "contra"@);
    assert(w =~= "entails"@);
    let u = seq!['e', 'n', 't', 'a', 'i', 'l'];
    lemma_command_split(u, a);
    assert(seq![':', 'e', 'n', 't', 'a', 'i', 'l', ' '] + a =~= seq![':'] + (u + seq![' '] + a));
    assert(u != "help"@ && u != "quit"@ && u != "taut"@ && u != "contra"@);
    assert(u =~= "entail"@);
}

#[verifier::spinoff_prover]
#[verifier::rlimit(40)]
proof fn lemma_equiv_command(a: Seq<char>)
    ensures
        line_response(seq![':', 'e', 'q', 'u', 'i', 'v', ' '] + a) == equiv_response(trim(a)),
{
    reveal_strlit("help");
    reveal_strlit("quit");
    reveal_strlit("taut");
    reveal_strlit("contra");
    reveal_strlit("entails");
    reveal_strlit("entail");
    reveal_strlit("equiv");
    let w = seq!['e', 'q', 'u', 'i', 'v'];
    lemma_command_split(w, a);
    assert(seq![':', 'e', 'q', 'u', 'i', 'v', ' '] + a =~= seq![':'] + (w + seq![' '] + a));
    assert(w != "help"@ && w != "quit"@ && w != "taut"@ && w != "contra"@ && w != "entails"@
        && w != "entail"@);
    assert(w =~= "equiv"@);
}

#[verifier::spinoff_prover]
#[verifier::rlimit(40)]
proof fn lemma_help_quit_commands()
    ensures
        line_response(seq![':', 'h', 'e', 'l', 'p']) == ResponseV::Help,
        line_response(seq![':', 'q', 'u', 'i', 't']) == ResponseV::Quit,
{
    reveal_strlit("help");
    reveal_strlit("quit");
    let help = seq!['h', 'e', 'l', 'p'];
    lemma_word_then_space(help, seq![]);
    assert((seq![':', 'h', 'e', 'l', 'p']).drop_first() =~= help);
    assert(help.take(4) =~= help);
    assert(help =~= "help"@);
    let quit = seq!['q', 'u', 'i', 't'];
    lemma_word_then_space(quit, seq![]);
    assert((seq![':', 'q', 'u', 'i', 't']).drop_first() =~= quit);
    assert(quit.take(4) =~= quit);
    assert(quit =~= "quit"@);
    assert(quit != "help"@);
}

/// The interpreter's commands do what their names say: `:taut`, `:contra`,
/// `:entails` (also spelled `:entail`) and `:equiv` followed by a space answer the
/// tautology, contradiction, entailment and equivalence questions about the rest of
/// the line, trimmed; `:help` gives the help and `:quit` leaves.
pub proof fn law_commands_answer(a: Seq<char>)
    ensures
        line_response(seq![':', 't', 'a', 'u', 't', ' '] + a) == taut_response(trim(a)),
        line_response(seq![':', 'c', 'o', 'n', 't', 'r', 'a', ' '] + a) == contra_response(
            trim(a),
        ),
        line_response(seq![':', 'e', 'n', 't', 'a', 'i', 'l', 's', ' '] + a) == entail_response(
            trim(a),
        ),
        line_response(seq![':', 'e', 'n', 't', 'a', 'i', 'l', ' '] + a) == entail_response(
            trim(a),
        ),
        line_response(seq![':', 'e', 'q', 'u', 'i', 'v', ' '] + a) == equiv_response(trim(a)),
        line_response(seq![':', 'h', 'e', 'l', 'p']) == ResponseV::Help,
        line_response(seq![':', 'q', 'u', 'i', 't']) == ResponseV::Quit,
{
    lemma_taut_command(a);
    lemma_contra_command(a);
    lemma_entails_command(a);
    lemma_equiv_command(a);
    lemma_help_quit_commands();
}


/// A line that is a sentence is answered with the sentence's report, whenever its
/// atoms are within the table limit: no sentence gets a shorter answer. An empty
/// line is answered with nothing.
pub proof fn law_sentence_lines_answer(s: Seq<char>)
    ensures
        line_response(seq![]) == ResponseV::Lines(seq![]),
        read(s) is Ok && atoms(read(s)->Ok_0).len() <= MAX_TABLE_ATOMS ==> {
            &&& formula_response(s) == ResponseV::Lines(sentence_lines(read(s)->Ok_0))
            &&& line_response(s) == ResponseV::Lines(sentence_lines(read(s)->Ok_0))
        },
{
    if read(s) is Ok {
        if s.len() == 0 {
            assert(lex(s) == Ok::<Seq<TokenV>, LexError>(seq![]));
            assert(sentence(Seq::<TokenV>::empty()).0 is Err);
        } else {
            if s[0] == ':' {
                assert(lex(s) == Err::<Seq<TokenV>, LexError>(LexError::Unexpected(':')));
            }
        }
    }
}

/// The report on a sentence: its canonical text first; then one row for each
/// valuation of its atoms (the rows are those valuations, each once, by
/// `law_rows_are_the_valuations`), showing the valuation and the sentence's value
/// under it; last, `tautology` exactly when it is true under every valuation,
/// `contradiction` exactly when it is false under every valuation, and
/// `contingent` exactly when it is true under some and false under some.
pub proof fn law_sentence_report(f: FormulaV)
    ensures
        ({
            let lines = sentence_lines(f);
            let names = atoms(f);
            let n = row_count(names.len());
            &&& lines.len() == n + 2
            &&& lines[0] == LineV::Out(" "@ + crate::printer::show(f))
            &&& forall|i: nat|
                i < n ==> #[trigger] lines[i + 1int] == LineV::Out(
                    " "@ + entries_text(row_entries(names, i)) + "  result: "@
                        + crate::repl::bool_text(truth_value(f, row_valuation(names, i))),
                )
            &&& (lines[n + 1int] == LineV::Out(" tautology."@)) <==> (forall|v: Valuation|
                #[trigger] truth_value(f, v))
            &&& (lines[n + 1int] == LineV::Out(" contradiction."@)) <==> (forall|v: Valuation|
                !#[trigger] truth_value(f, v))
            &&& (lines[n + 1int] == LineV::Out(" contingent."@)) <==> ((exists|v: Valuation|
                #[trigger] truth_value(f, v)) && (exists|v: Valuation| !#[trigger] truth_value(f, v)))
        }),
{
    reveal_strlit(" tautology.");
    reveal_strlit(" contradiction.");
    reveal_strlit(" contingent.");
    let names = atoms(f);
    let n = row_count(names.len());
    crate::eval::lemma_row_count_mono(0, names.len());
    let lines = sentence_lines(f);
    assert forall|i: nat| i < n implies #[trigger] lines[i + 1int] == LineV::Out(
        " "@ + entries_text(row_entries(names, i)) + "  result: "@ + crate::repl::bool_text(
            truth_value(f, row_valuation(names, i)),
        ),
    ) by {
        assert(lines[i + 1int] == crate::repl::row_line(f, i));
    }
    let all_true = |n: Seq<char>| true;
    assert(lines[n + 1int] == LineV::Out(classification_text(f)));
    if forall|v: Valuation| #[trigger] truth_value(f, v) {
        assert(truth_value(f, all_true));
    }
    if forall|v: Valuation| !#[trigger] truth_value(f, v) {
        assert(!truth_value(f, all_true));
    }
    assert(" tautology."@[1] == 't' && " contradiction."@[1] == 'c' && " contingent."@[1] == 'c');
    assert(" contradiction."@[5] == 'r' && " contingent."@[5] == 'i');
}

/// What `:taut` answers about a sentence: that it is a tautology exactly when it
/// is true under every valuation; otherwise a row of its truth table where it is
/// false.
pub proof fn law_taut_answer(arg: Seq<char>)
    ensures
        arg.len() > 0 && read(arg) is Ok && atoms(read(arg)->Ok_0).len() <= MAX_TABLE_ATOMS ==> {
            let f = read(arg)->Ok_0;
            &&& (forall|v: Valuation| #[trigger] truth_value(f, v)) ==> taut_response(arg)
                == ResponseV::Lines(
                seq![
                    LineV::Out(seq![]),
                    LineV::Out(" "@ + crate::printer::show(f) + " "@ + emphasis("is a tautology"@)),
                    LineV::Out(seq![]),
                ],
            )
            &&& !(forall|v: Valuation| #[trigger] truth_value(f, v)) ==> exists|i: nat|
                i < row_count(atoms(f).len()) && !truth_value(f, row_valuation(atoms(f), i))
                    && (forall|j: nat| j < i ==> truth_value(f, #[trigger] row_valuation(atoms(f), j)))
                    && #[trigger] taut_response(arg) == ResponseV::Lines(
                    seq![
                        LineV::Out(seq![]),
                        LineV::Out(
                            " "@ + emphasis(" not a tautology, false when "@) + " "@
                                + entries_text(row_entries(atoms(f), i)),
                        ),
                        LineV::Out(seq![]),
                    ],
                )
        },
{
    if arg.len() > 0 && read(arg) is Ok && atoms(read(arg)->Ok_0).len() <= MAX_TABLE_ATOMS {
        let f = read(arg)->Ok_0;
        crate::semantics::law_taut_verdict(f);
        let n = row_count(atoms(f).len());
        crate::semantics::lemma_first_row_facts(f, atoms(f), false, 0, n);
        let i0 = crate::repl::first_row(f, atoms(f), false, 0, n);
        assert forall|j: nat| j < i0 implies truth_value(f, #[trigger] row_valuation(atoms(f), j)) by {
            assert(truth_value(f, row_valuation(atoms(f), j)) != false);
        }
        let i = crate::repl::first_row(f, atoms(f), false, 0, n);
        if !(forall|v: Valuation| #[trigger] truth_value(f, v)) {
            assert(i < n);
            assert(taut_response(arg) == ResponseV::Lines(
                seq![
                    LineV::Out(seq![]),
                    LineV::Out(
                        " "@ + emphasis(" not a tautology, false when "@) + " "@ + entries_text(
                            row_entries(atoms(f), i),
                        ),
                    ),
                    LineV::Out(seq![]),
                ],
            ));
        }
    }
}

/// What `:contra` answers about a sentence: that it is a contradiction exactly
/// when it is false under every valuation; otherwise a row of its truth table where
/// it is true.
pub proof fn law_contra_answer(arg: Seq<char>)
    ensures
        arg.len() > 0 && read(arg) is Ok && atoms(read(arg)->Ok_0).len() <= MAX_TABLE_ATOMS ==> {
            let f = read(arg)->Ok_0;
            &&& (forall|v: Valuation| !#[trigger] truth_value(f, v)) ==> contra_response(arg)
                == ResponseV::Lines(
                seq![
                    LineV::Out(seq![]),
                    LineV::Out(
                        " "@ + crate::printer::show(f) + " "@ + emphasis("is a contradiction"@),
                    ),
                    LineV::Out(seq![]),
                ],
            )
            &&& !(forall|v: Valuation| !#[trigger] truth_value(f, v)) ==> exists|i: nat|
                i < row_count(atoms(f).len()) && truth_value(f, row_valuation(atoms(f), i))
                    && (forall|j: nat| j < i ==> !truth_value(f, #[trigger] row_valuation(atoms(f), j)))
                    && #[trigger] contra_response(arg) == ResponseV::Lines(
                    seq![
                        LineV::Out(seq![]),
                        LineV::Out(
                            " "@ + emphasis(" not a contradiction, true when "@) + " "@
                                + entries_text(row_entries(atoms(f), i)),
                        ),
                        LineV::Out(seq![]),
                    ],
                )
        },
{
    if arg.len() > 0 && read(arg) is Ok && atoms(read(arg)->Ok_0).len() <= MAX_TABLE_ATOMS {
        let f = read(arg)->Ok_0;
        crate::semantics::law_contra_verdict(f);
        let n = row_count(atoms(f).len());
        crate::semantics::lemma_first_row_facts(f, atoms(f), true, 0, n);
        let i0 = crate::repl::first_row(f, atoms(f), true, 0, n);
        assert forall|j: nat| j < i0 implies !truth_value(f, #[trigger] row_valuation(atoms(f), j)) by {
            assert(truth_value(f, row_valuation(atoms(f), j)) != true);
        }
        let i = crate::repl::first_row(f, atoms(f), true, 0, n);
        if !(forall|v: Valuation| !#[trigger] truth_value(f, v)) {
            assert(i < n);
            assert(contra_response(arg) == ResponseV::Lines(
                seq![
                    LineV::Out(seq![]),
                    LineV::Out(
                        " "@ + emphasis(" not a contradiction, true when "@) + " "@ + entries_text(
                            row_entries(atoms(f), i),
                        ),
                    ),
                    LineV::Out(seq![]),
                ],
            ));
        }
    }
}


/// What `:entails` answers: after any premise errors, that the premises (those
/// read from the pieces before `|=`) entail the conclusion exactly when no
/// valuation makes them all true and the conclusion false; otherwise a row of the
/// argument's truth table that does.
pub proof fn law_entail_answer(arg: Seq<char>)
    ensures
        ({
            let k = turnstile_pos(arg);
            let (ls, ps) = read_premises(
                crate::text::split_commas(trim(arg.take(k as int))),
                (seq![], seq![]),
            );
            let concl = trim(arg.skip(k + 2int));
            k < arg.len() && read(concl) is Ok && argument_atoms(ps, read(concl)->Ok_0).len()
                <= MAX_TABLE_ATOMS ==> {
                let c = read(concl)->Ok_0;
                let names = argument_atoms(ps, c);
                &&& entailed(ps, c) ==> entail_response(arg) == ResponseV::Lines(
                    ls + seq![
                        LineV::Out(seq![]),
                        LineV::Out(emphasis(" entails."@)),
                        LineV::Out(seq![]),
                    ],
                )
                &&& !entailed(ps, c) ==> exists|i: nat|
                    i < row_count(names.len()) && is_counterexample(ps, c, names, i) && (forall|
                        j: nat,
                    | j < i ==> !#[trigger] is_counterexample(ps, c, names, j))
                        && #[trigger] entail_response(arg) == ResponseV::Lines(
                        ls + seq![
                            LineV::Out(seq![]),
                            LineV::Out(
                                " "@ + emphasis(" does not entail: "@) + " "@ + entries_text(
                                    row_entries(names, i),
                                ),
                            ),
                            LineV::Out(seq![]),
                        ],
                    )
            }
        }),
{
    let k = turnstile_pos(arg);
    let (ls, ps) = read_premises(
        crate::text::split_commas(trim(arg.take(k as int))),
        (seq![], seq![]),
    );
    let concl = trim(arg.skip(k + 2int));
    if k < arg.len() && read(concl) is Ok && argument_atoms(ps, read(concl)->Ok_0).len()
        <= MAX_TABLE_ATOMS {
        let c = read(concl)->Ok_0;
        let names = argument_atoms(ps, c);
        let n = row_count(names.len());
        crate::semantics::law_entail_verdict(ps, c);
        crate::semantics::lemma_first_counterexample_facts(ps, c, names, 0, n);
        let i = crate::repl::first_counterexample(ps, c, names, 0, n);
        if !entailed(ps, c) {
            assert(i < n);
            assert(entail_response(arg) == ResponseV::Lines(
                ls + seq![
                    LineV::Out(seq![]),
                    LineV::Out(
                        " "@ + emphasis(" does not entail: "@) + " "@ + entries_text(
                            row_entries(names, i),
                        ),
                    ),
                    LineV::Out(seq![]),
                ],
            ));
        }
    }
}

/// What `:equiv` answers about two sentences: that they are equivalent exactly
/// when they have the same truth value under every valuation; otherwise a row of
/// the truth table over their atoms where their values differ.
pub proof fn law_equiv_answer(arg: Seq<char>)
    ensures
        ({
            let k = char_pos(arg, ',');
            let left = read(trim(arg.take(k as int)));
            let right = read(trim(arg.skip(k + 1int)));
            k < arg.len() && left is Ok && right is Ok && atoms(
                FormulaV::Iff(Box::new(left->Ok_0), Box::new(right->Ok_0)),
            ).len() <= MAX_TABLE_ATOMS ==> {
                let a = left->Ok_0;
                let b = right->Ok_0;
                let names = atoms(FormulaV::Iff(Box::new(a), Box::new(b)));
                &&& (forall|v: Valuation| #[trigger] truth_value(a, v) == truth_value(b, v))
                    ==> equiv_response(arg) == ResponseV::Lines(
                    seq![
                        LineV::Out(seq![]),
                        LineV::Out(
                            " "@ + crate::printer::show(a) + " "@ + emphasis("is equivalent to"@)
                                + " "@ + crate::printer::show(b),
                        ),
                        LineV::Out(seq![]),
                    ],
                )
                &&& !(forall|v: Valuation| #[trigger] truth_value(a, v) == truth_value(b, v))
                    ==> exists|i: nat|
                    i < row_count(names.len()) && truth_value(a, row_valuation(names, i))
                        != truth_value(b, row_valuation(names, i)) && (forall|j: nat|
                        j < i ==> truth_value(a, #[trigger] row_valuation(names, j)) == truth_value(
                            b,
                            row_valuation(names, j),
                        )) && #[trigger] equiv_response(
                        arg,
                    ) == ResponseV::Lines(
                        seq![
                            LineV::Out(seq![]),
                            LineV::Out(
                                " "@ + emphasis(" not equivalent, they differ when "@) + " "@
                                    + entries_text(row_entries(names, i)),
                            ),
                            LineV::Out(seq![]),
                        ],
                    )
            }
        }),
{
    let k = char_pos(arg, ',');
    let left = read(trim(arg.take(k as int)));
    let right = read(trim(arg.skip(k + 1int)));
    if k < arg.len() && left is Ok && right is Ok && atoms(
        FormulaV::Iff(Box::new(left->Ok_0), Box::new(right->Ok_0)),
    ).len() <= MAX_TABLE_ATOMS {
        let a = left->Ok_0;
        let b = right->Ok_0;
        let f = FormulaV::Iff(Box::new(a), Box::new(b));
        let names = atoms(f);
        let n = row_count(names.len());
        crate::semantics::law_equiv_verdict(a, b);
        crate::semantics::lemma_first_row_facts(f, names, false, 0, n);
        let i = crate::repl::first_row(f, names, false, 0, n);
        assert forall|j: nat| j < i implies truth_value(a, #[trigger] row_valuation(names, j))
            == truth_value(b, row_valuation(names, j)) by {
            assert(truth_value(f, row_valuation(names, j)) != false);
        }
        if !(forall|v: Valuation| #[trigger] truth_value(a, v) == truth_value(b, v)) {
            assert(i < n);
            assert(equiv_response(arg) == ResponseV::Lines(
                seq![
                    LineV::Out(seq![]),
                    LineV::Out(
                        " "@ + emphasis(" not equivalent, they differ when "@) + " "@
                            + entries_text(row_entries(names, i)),
                    ),
                    LineV::Out(seq![]),
                ],
            ));
        }
    }
}

} // verus!
