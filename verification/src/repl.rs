use vstd::prelude::*;
use vstd::string::StringExecFns;

use crate::eval::{
    MAX_TABLE_ATOMS, Valuation, strings_view, argument_atoms, atoms, atoms_of, atoms_of_all, assignment_for, entails,
    entries_view, formulas_view, is_counterexample, result_column, row_count, row_entries,
    row_valuation, truth_value,
};
use crate::text::{
    char_pos, split_commas, substring, trim, trim_bounds, turnstile_pos, white_space_pos,
};
use crate::lexer::push_char;
use crate::parser::{Formula, FormulaV};
use crate::pipeline::{PipelineError, parse_source, read};
use crate::printer::{pipeline_error_text, push_pipeline_error, push_str_chars, show};

verus! {

/// One line of output, to standard output or to standard error.
pub enum Line {
    Out(String),
    Error(String),
}

pub enum LineV {
    Out(Seq<char>),
    Error(Seq<char>),
}

impl View for Line {
    type V = LineV;

    open spec fn view(&self) -> LineV {
        match self {
            Line::Out(s) => LineV::Out(s@),
            Line::Error(s) => LineV::Error(s@),
        }
    }
}

pub open spec fn lines_view(ls: Seq<Line>) -> Seq<LineV> {
    ls.map_values(|l: Line| l@)
}

/// What the interpreter does with one input line.
pub enum Response {
    /// Print these lines.
    Lines(Vec<Line>),
    /// Print the help text.
    Help,
    /// Leave the interpreter.
    Quit,
    /// The truth table would have more than `MAX_TABLE_ATOMS` atoms.
    TooManyAtoms,
}

pub enum ResponseV {
    Lines(Seq<LineV>),
    Help,
    Quit,
    TooManyAtoms,
}

impl View for Response {
    type V = ResponseV;

    open spec fn view(&self) -> ResponseV {
        match self {
            Response::Lines(ls) => ResponseV::Lines(lines_view(ls@)),
            Response::Help => ResponseV::Help,
            Response::Quit => ResponseV::Quit,
            Response::TooManyAtoms => ResponseV::TooManyAtoms,
        }
    }
}

/// `text` in bold italics, by the ANSI escape codes that ansiterm writes.
pub open spec fn emphasis(text: Seq<char>) -> Seq<char> {
    seq!['\x1b', '[', '1', ';', '3', 'm'] + text + seq!['\x1b', '[', '0', 'm']
}

/// ansiterm's `Style::new().bold().italic().paint(text)`, as a string. The
/// contract states what ansiterm 0.12's source writes for that style: the prefix
/// `ESC[1;3m`, the text, and the reset code `ESC[0m`.
#[verifier::external_body]
fn emphasized(text: &str) -> (r: String)
    ensures
        r@ == emphasis(text@),
{
    ansiterm::Style::new().bold().italic().paint(text).to_string()
}

pub open spec fn bool_text(b: bool) -> Seq<char> {
    if b {
        "true"@
    } else {
        "false"@
    }
}

/// How a sentence is classified by its truth values: true under every valuation,
/// false under every valuation, or neither.
pub open spec fn classification_text(f: FormulaV) -> Seq<char> {
    if forall|v: Valuation| #[trigger] truth_value(f, v) {
        " tautology."@
    } else if forall|v: Valuation| !#[trigger] truth_value(f, v) {
        " contradiction."@
    } else {
        " contingent."@
    }
}

/// Row `i` of the complete truth table of `f`: the values of its atoms, then the
/// value of the sentence.
pub open spec fn row_line(f: FormulaV, i: nat) -> LineV {
    LineV::Out(
        " "@ + entries_text(row_entries(atoms(f), i)) + "  result: "@ + bool_text(
            truth_value(f, row_valuation(atoms(f), i)),
        ),
    )
}

/// The report on a sentence: its canonical text, each row of its complete truth
/// table, and its classification.
pub open spec fn sentence_lines(f: FormulaV) -> Seq<LineV> {
    seq![LineV::Out(" "@ + show(f))] + Seq::new(
        row_count(atoms(f).len()),
        |i: int| row_line(f, i as nat),
    ) + seq![LineV::Out(classification_text(f))]
}

/// What the interpreter answers to a line that holds a sentence: its truth table,
/// or why it is not a sentence.
pub open spec fn formula_response(line: Seq<char>) -> ResponseV {
    match read(line) {
        Err(e) => ResponseV::Lines(seq![LineV::Error(" "@ + pipeline_error_text(e))]),
        Ok(f) => if atoms(f).len() > MAX_TABLE_ATOMS {
            ResponseV::TooManyAtoms
        } else {
            ResponseV::Lines(sentence_lines(f))
        },
    }
}

fn error_line(prefix: &str, e: &PipelineError) -> (l: Line)
    ensures
        l@ == LineV::Error(prefix@ + pipeline_error_text(e@)),
{
    let mut out = String::from_str(prefix);
    push_pipeline_error(&mut out, e);
    Line::Error(out)
}

/// The report on a sentence: its canonical text, its complete truth table with the
/// values of the atoms in each row, and whether it is a tautology, a
/// contradiction or contingent.
pub fn sentence_report(formula: &Formula) -> (lines: Vec<Line>)
    requires
        atoms(formula@).len() <= MAX_TABLE_ATOMS,
    ensures
        lines_view(lines@) == sentence_lines(formula@),
{
    let ghost f = formula@;
    let ghost rows = Seq::new(row_count(atoms(f).len()), |i: int| row_line(f, i as nat));
    let names = atoms_of(formula);
    let col = result_column(formula);
    let mut lines: Vec<Line> = Vec::new();
    let mut head = String::from_str(" ");
    push_str_chars(&mut head, &formula.to_string());
    lines.push(Line::Out(head));
    let mut i: usize = 0;
    while i < col.len()
        invariant
            i <= col@.len(),
            f == formula@,
            strings_view(names@) == atoms(f),
            rows == Seq::new(row_count(atoms(f).len()), |i: int| row_line(f, i as nat)),
            col@.len() == row_count(atoms(f).len()),
            forall|k: int|
                0 <= k < col@.len() ==> col@[k] == truth_value(f, row_valuation(atoms(f), k as nat)),
            lines_view(lines@) =~= seq![LineV::Out(" "@ + show(f))] + rows.take(i as int),
        decreases col@.len() - i,
    {
        let asg = assignment_for(i, &names);
        let mut text = String::from_str(" ");
        push_str_chars(&mut text, &row_text(&asg));
        text.append("  result: ");
        if col[i] {
            text.append("true");
        } else {
            text.append("false");
        }
        let ghost before = lines_view(lines@);
        let ghost t = text@;
        assert(t == " "@ + entries_text(row_entries(atoms(f), i as nat)) + "  result: "@ + bool_text(
            col@[i as int],
        ));
        lines.push(Line::Out(text));
        assert(rows[i as int] == LineV::Out(t));
        assert(lines_view(lines@) =~= before.push(LineV::Out(t)));
        assert(rows.take(i + 1) =~= rows.take(i as int).push(rows[i as int]));
        i = i + 1;
    }
    assert(rows.take(i as int) =~= rows);
    let tautology = crate::eval::is_tautology(&col);
    let contradiction = crate::eval::is_contradiction(&col);
    proof {
        crate::semantics::law_table_decides_tautology(f);
        crate::semantics::law_table_decides_contradiction(f);
        let n = row_count(atoms(f).len());
        if tautology {
            assert forall|k: nat| k < n implies #[trigger] truth_value(f, row_valuation(atoms(f), k)) by {
                assert(col@[k as int]);
            }
        } else {
            let k = choose|k: int| 0 <= k < col@.len() && !col@[k];
            assert(!truth_value(f, row_valuation(atoms(f), k as nat)));
        }
        if contradiction {
            assert forall|k: nat| k < n implies !#[trigger] truth_value(f, row_valuation(atoms(f), k)) by {
                assert(!col@[k as int]);
            }
        } else {
            let k = choose|k: int| 0 <= k < col@.len() && col@[k];
            assert(truth_value(f, row_valuation(atoms(f), k as nat)));
        }
    }
    let verdict = if tautology {
        String::from_str(" tautology.")
    } else if contradiction {
        String::from_str(" contradiction.")
    } else {
        String::from_str(" contingent.")
    };
    let ghost before = lines_view(lines@);
    lines.push(Line::Out(verdict));
    assert(lines_view(lines@) =~= before.push(LineV::Out(classification_text(f))));
    lines
}

/// Answers a line that holds a sentence: its report, or why it is not a sentence.
pub fn run_formula(line: &str) -> (r: Response)
    ensures
        r@ == formula_response(line@),
{
    let formula = match parse_source(line) {
        Err(e) => {
            return one_line(error_line(" ", &e));
        },
        Ok(f) => f,
    };
    let names = atoms_of(&formula);
    if names.len() > MAX_TABLE_ATOMS {
        return Response::TooManyAtoms;
    }
    Response::Lines(sentence_report(&formula))
}

pub open spec fn entry_text(e: (Seq<char>, bool)) -> Seq<char> {
    e.0 + "="@ + (if e.1 {
        "T"@
    } else {
        "F"@
    })
}

/// A row written as `P=T, Q=F, ...`.
pub open spec fn entries_text(es: Seq<(Seq<char>, bool)>) -> Seq<char>
    decreases es.len(),
{
    if es.len() == 0 {
        seq![]
    } else if es.len() == 1 {
        entry_text(es[0])
    } else {
        entries_text(es.drop_last()) + ", "@ + entry_text(es.last())
    }
}

fn row_text(entries: &Vec<(String, bool)>) -> (s: String)
    ensures
        s@ == entries_text(entries_view(entries@)),
{
    let ghost es = entries_view(entries@);
    let mut out = String::new();
    let mut j: usize = 0;
    while j < entries.len()
        invariant
            j <= entries@.len(),
            es == entries_view(entries@),
            out@ == entries_text(es.take(j as int)),
        decreases entries@.len() - j,
    {
        let ghost before = out@;
        if j > 0 {
            out.append(", ");
        }
        push_str_chars(&mut out, &entries[j].0);
        out.append("=");
        if entries[j].1 {
            out.append("T");
        } else {
            out.append("F");
        }
        assert(es[j as int] == (entries@[j as int].0@, entries@[j as int].1));
        assert(es.take(j + 1).drop_last() =~= es.take(j as int));
        assert(es.take(j + 1).last() == es[j as int]);
        if j == 0 {
            assert(out@ =~= entry_text(es[0]));
        } else {
            assert(out@ =~= before + ", "@ + entry_text(es[j as int]));
        }
        j = j + 1;
    }
    assert(es.take(j as int) =~= es);
    out
}

/// The first row in `start..end` of the truth table of `f` over `names` where `f`
/// has the truth value `value`, or `end` if there is none.
pub open spec fn first_row(f: FormulaV, names: Seq<Seq<char>>, value: bool, start: nat, end: nat) -> nat
    decreases end - start,
{
    if start >= end {
        end
    } else if truth_value(f, row_valuation(names, start)) == value {
        start
    } else {
        first_row(f, names, value, start + 1, end)
    }
}

proof fn lemma_first_row(f: FormulaV, names: Seq<Seq<char>>, value: bool, start: nat, end: nat, i: nat)
    requires
        start <= i <= end,
        forall|k: nat| start <= k < i ==> truth_value(f, #[trigger] row_valuation(names, k)) != value,
        i < end ==> truth_value(f, row_valuation(names, i)) == value,
    ensures
        first_row(f, names, value, start, end) == i,
    decreases i - start,
{
    if start < i {
        lemma_first_row(f, names, value, start + 1, end, i);
    }
}

/// What `:taut` and `:contra` answer: a usage line for an empty argument, the
/// error for a text that is not a sentence, and otherwise whether the sentence is
/// `value`-free in every row (`yes`), or the first row where it has `value` (`no`).
pub open spec fn classify_response(
    arg: Seq<char>,
    usage: Seq<char>,
    yes: Seq<char>,
    no: Seq<char>,
    value: bool,
) -> ResponseV {
    if arg.len() == 0 {
        ResponseV::Lines(seq![LineV::Out(usage)])
    } else {
        match read(arg) {
            Err(e) => ResponseV::Lines(seq![LineV::Error(" "@ + pipeline_error_text(e))]),
            Ok(f) => if atoms(f).len() > MAX_TABLE_ATOMS {
                ResponseV::TooManyAtoms
            } else {
                let names = atoms(f);
                let n = row_count(names.len());
                let i = first_row(f, names, value, 0, n);
                let verdict = if i == n {
                    LineV::Out(" "@ + show(f) + " "@ + emphasis(yes))
                } else {
                    LineV::Out(" "@ + emphasis(no) + " "@ + entries_text(row_entries(names, i)))
                };
                ResponseV::Lines(seq![LineV::Out(seq![]), verdict, LineV::Out(seq![])])
            },
        }
    }
}

/// The answer to `:taut`.
pub open spec fn taut_response(arg: Seq<char>) -> ResponseV {
    classify_response(
        arg,
        " usage: :taut <formula>"@,
        "is a tautology"@,
        " not a tautology, false when "@,
        false,
    )
}

/// The answer to `:contra`.
pub open spec fn contra_response(arg: Seq<char>) -> ResponseV {
    classify_response(
        arg,
        " usage :contra <formula>"@,
        "is a contradiction"@,
        " not a contradiction, true when "@,
        true,
    )
}

fn one_line(l: Line) -> (r: Response)
    ensures
        r@ == ResponseV::Lines(seq![l@]),
{
    let mut lines: Vec<Line> = Vec::new();
    lines.push(l);
    assert(lines_view(lines@) =~= seq![l@]);
    Response::Lines(lines)
}

fn classify(arg: &str, usage: &str, yes: &str, no: &str, value: bool) -> (r: Response)
    ensures
        r@ == classify_response(arg@, usage@, yes@, no@, value),
{
    if arg.unicode_len() == 0 {
        return one_line(Line::Out(String::from_str(usage)));
    }
    let formula = match parse_source(arg) {
        Err(e) => {
            return one_line(error_line(" ", &e));
        },
        Ok(f) => f,
    };
    let names = atoms_of(&formula);
    if names.len() > MAX_TABLE_ATOMS {
        return Response::TooManyAtoms;
    }
    let ghost f = formula@;
    let ghost nv = atoms(f);
    let col = result_column(&formula);
    let ghost n = row_count(nv.len());
    let holds = if value {
        crate::eval::is_contradiction(&col)
    } else {
        crate::eval::is_tautology(&col)
    };
    let verdict = if holds {
        assert forall|k: nat| 0 <= k < n implies truth_value(f, #[trigger] row_valuation(nv, k))
            != value by {
            assert(col@[k as int] == truth_value(f, row_valuation(nv, k)));
        }
        proof {
            lemma_first_row(f, nv, value, 0, n, n);
        }
        let mut text = String::from_str(" ");
        push_str_chars(&mut text, &formula.to_string());
        text.append(" ");
        push_str_chars(&mut text, &emphasized(yes));
        Line::Out(text)
    } else {
        let len = col.len();
        let mut i: usize = 0;
        while col[i] != value
            invariant
                i < col@.len(),
                len == col@.len(),
                col@.len() == n,
                exists|k: int| i <= k < col@.len() && col@[k] == value,
                forall|k: int|
                    0 <= k < col@.len() ==> col@[k] == truth_value(f, row_valuation(nv, k as nat)),
                forall|k: nat| k < i ==> truth_value(f, #[trigger] row_valuation(nv, k)) != value,
            decreases col@.len() - i,
        {
            let ghost w = choose|k: int| i <= k < col@.len() && col@[k] == value;
            assert(col@[i as int] == truth_value(f, row_valuation(nv, i as nat)));
            i = i + 1;
        }
        assert(col@[i as int] == truth_value(f, row_valuation(nv, i as nat)));
        proof {
            lemma_first_row(f, nv, value, 0, n, i as nat);
        }
        let asg = assignment_for(i, &names);
        let mut text = String::from_str(" ");
        push_str_chars(&mut text, &emphasized(no));
        text.append(" ");
        push_str_chars(&mut text, &row_text(&asg));
        Line::Out(text)
    };
    let mut lines: Vec<Line> = Vec::new();
    lines.push(Line::Out(String::new()));
    lines.push(verdict);
    lines.push(Line::Out(String::new()));
    assert(lines_view(lines@) =~= seq![LineV::Out(seq![]), verdict@, LineV::Out(seq![])]);
    Response::Lines(lines)
}

/// Answers `:taut`: whether the sentence is a tautology, or a row where it is false.
pub fn check_taut(arg: &str) -> (r: Response)
    ensures
        r@ == taut_response(arg@),
{
    classify(arg, " usage: :taut <formula>", "is a tautology", " not a tautology, false when ", false)
}

/// Answers `:contra`: whether the sentence is a contradiction, or a row where it is true.
pub fn check_contra(arg: &str) -> (r: Response)
    ensures
        r@ == contra_response(arg@),
{
    classify(arg, " usage :contra <formula>", "is a contradiction", " not a contradiction, true when ", true)
}


/// One comma-separated piece of the premises: skipped when blank, otherwise read
/// as a sentence and added to the premises, or reported as a premise error.
pub open spec fn premise_step(acc: (Seq<LineV>, Seq<FormulaV>), piece: Seq<char>) -> (
    Seq<LineV>,
    Seq<FormulaV>,
) {
    let p = trim(piece);
    if p.len() == 0 {
        acc
    } else {
        match read(p) {
            Ok(f) => (acc.0, acc.1.push(f)),
            Err(e) => (acc.0.push(LineV::Error(" premise error: "@ + pipeline_error_text(e))), acc.1),
        }
    }
}

/// The error lines and the premises read from the pieces, in order.
pub open spec fn read_premises(pieces: Seq<Seq<char>>, acc: (Seq<LineV>, Seq<FormulaV>)) -> (
    Seq<LineV>,
    Seq<FormulaV>,
)
    decreases pieces.len(),
{
    if pieces.len() == 0 {
        acc
    } else {
        read_premises(pieces.drop_first(), premise_step(acc, pieces[0]))
    }
}

/// The first counterexample row in `start..end`, or `end` if there is none.
pub open spec fn first_counterexample(
    ps: Seq<FormulaV>,
    c: FormulaV,
    names: Seq<Seq<char>>,
    start: nat,
    end: nat,
) -> nat
    decreases end - start,
{
    if start >= end {
        end
    } else if is_counterexample(ps, c, names, start) {
        start
    } else {
        first_counterexample(ps, c, names, start + 1, end)
    }
}

proof fn lemma_first_counterexample(
    ps: Seq<FormulaV>,
    c: FormulaV,
    names: Seq<Seq<char>>,
    start: nat,
    end: nat,
    i: nat,
)
    requires
        start <= i <= end,
        forall|k: nat| start <= k < i ==> !#[trigger] is_counterexample(ps, c, names, k),
        i < end ==> is_counterexample(ps, c, names, i),
    ensures
        first_counterexample(ps, c, names, start, end) == i,
    decreases i - start,
{
    if start < i {
        lemma_first_counterexample(ps, c, names, start + 1, end, i);
    }
}

/// The answer to `:entails premises |= conclusion`.
pub open spec fn entail_response(arg: Seq<char>) -> ResponseV {
    let k = turnstile_pos(arg);
    if k >= arg.len() {
        ResponseV::Lines(seq![LineV::Error(" usage: :entails p1, p2 |= conclusion"@)])
    } else {
        let prem = trim(arg.take(k as int));
        let concl = trim(arg.skip(k + 2int));
        let (ls, ps) = read_premises(split_commas(prem), (seq![], seq![]));
        match read(concl) {
            Err(e) => ResponseV::Lines(
                ls.push(LineV::Error(" conclusion error: "@ + pipeline_error_text(e))),
            ),
            Ok(c) => {
                let names = argument_atoms(ps, c);
                if names.len() > MAX_TABLE_ATOMS {
                    ResponseV::TooManyAtoms
                } else {
                    let n = row_count(names.len());
                    let i = first_counterexample(ps, c, names, 0, n);
                    let verdict = if i == n {
                        LineV::Out(emphasis(" entails."@))
                    } else {
                        LineV::Out(
                            " "@ + emphasis(" does not entail: "@) + " "@ + entries_text(
                                row_entries(names, i),
                            ),
                        )
                    };
                    ResponseV::Lines(ls + seq![LineV::Out(seq![]), verdict, LineV::Out(seq![])])
                }
            },
        }
    }
}

fn find_turnstile(cs: &Vec<char>) -> (k: usize)
    ensures
        k == turnstile_pos(cs@),
        k <= cs@.len(),
{
    let mut i: usize = 0;
    assert(cs@.skip(0) =~= cs@);
    while i < cs.len() && i + 1 < cs.len() && !(cs[i] == '|' && cs[i + 1] == '=')
        invariant
            i <= cs@.len(),
            turnstile_pos(cs@) == i + turnstile_pos(cs@.skip(i as int)),
        decreases cs@.len() - i,
    {
        assert(cs@.skip(i as int).drop_first() =~= cs@.skip(i + 1));
        i = i + 1;
    }
    if i < cs.len() && i + 1 < cs.len() {
        i
    } else {
        cs.len()
    }
}

fn find_char(cs: &Vec<char>, from: usize, to: usize, c: char) -> (k: usize)
    requires
        from <= to <= cs@.len(),
    ensures
        k == from + char_pos(cs@.subrange(from as int, to as int), c),
        from <= k <= to,
{
    let mut i = from;
    while i < to && cs[i] != c
        invariant
            from <= i <= to <= cs@.len(),
            char_pos(cs@.subrange(from as int, to as int), c) == (i - from) + char_pos(
                cs@.subrange(i as int, to as int),
                c,
            ),
        decreases to - i,
    {
        assert(cs@.subrange(i as int, to as int).drop_first() =~= cs@.subrange(i + 1, to as int));
        i = i + 1;
    }
    i
}

pub open spec fn premises_view(ls: Vec<Line>, ps: Vec<Formula>) -> (Seq<LineV>, Seq<FormulaV>) {
    (lines_view(ls@), formulas_view(ps@))
}

/// Answers `:entails`: whether the premises before `|=` entail the conclusion
/// after it, or a row that makes the premises true and the conclusion false.
pub fn check_entail(arg: &str) -> (r: Response)
    ensures
        r@ == entail_response(arg@),
{
    let cs = crate::lexer::chars_of(arg);
    let k = find_turnstile(&cs);
    if k >= cs.len() {
        return one_line(Line::Error(String::from_str(" usage: :entails p1, p2 |= conclusion")));
    }
    proof {
        crate::text::lemma_turnstile_pos(cs@);
    }
    let (pa, pb) = trim_bounds(&cs, 0, k);
    let (ca, cb) = trim_bounds(&cs, k + 2, cs.len());
    assert(cs@.subrange(0, k as int) =~= arg@.take(k as int));
    assert(cs@.subrange(k + 2, cs@.len() as int) =~= arg@.skip(k + 2));
    let ghost prem = trim(arg@.take(k as int));
    let mut lines: Vec<Line> = Vec::new();
    let mut premises: Vec<Formula> = Vec::new();
    let mut pos = pa;
    assert(premises_view(lines, premises) =~= (Seq::<LineV>::empty(), Seq::<FormulaV>::empty()));
    loop
        invariant_except_break
            read_premises(split_commas(prem), (seq![], seq![])) == read_premises(
                split_commas(cs@.subrange(pos as int, pb as int)),
                premises_view(lines, premises),
            ),
        invariant
            pa <= pos <= pb <= cs@.len(),
            cs@ == arg@,
            prem == cs@.subrange(pa as int, pb as int),
        ensures
            read_premises(split_commas(prem), (seq![], seq![])) == premises_view(lines, premises),
        decreases pb - pos,
    {
        let ghost rest = cs@.subrange(pos as int, pb as int);
        let ghost acc = premises_view(lines, premises);
        let c = find_char(&cs, pos, pb, ',');
        proof {
            crate::text::lemma_char_pos(rest, ',');
        }
        let ghost piece = cs@.subrange(pos as int, c as int);
        assert(piece =~= rest.take(char_pos(rest, ',') as int));
        let (a, b) = trim_bounds(&cs, pos, c);
        if a < b {
            let text = substring(&cs, a, b);
            match parse_source(text.as_str()) {
                Ok(f) => {
                    premises.push(f);
                },
                Err(e) => {
                    lines.push(error_line(" premise error: ", &e));
                },
            }
        }
        assert(premises_view(lines, premises) =~= premise_step(acc, piece));
        if c >= pb {
            assert(piece =~= rest);
            assert(split_commas(rest) =~= seq![rest]);
            assert(seq![rest].drop_first() =~= Seq::<Seq<char>>::empty());
            assert(read_premises(seq![rest], acc) == read_premises(
                Seq::<Seq<char>>::empty(),
                premise_step(acc, rest),
            ));
            break;
        }
        let ghost tail = cs@.subrange(c + 1, pb as int);
        assert(rest.skip(char_pos(rest, ',') + 1int) =~= tail);
        assert(split_commas(rest) == seq![piece] + split_commas(tail));
        assert((seq![piece] + split_commas(tail)).drop_first() =~= split_commas(tail));
        pos = c + 1;
    }
    let ghost ps = formulas_view(premises@);
    let concl_text = substring(&cs, ca, cb);
    let conclusion = match parse_source(concl_text.as_str()) {
        Err(e) => {
            let ghost before = lines_view(lines@);
            let l = error_line(" conclusion error: ", &e);
            lines.push(l);
            assert(lines_view(lines@) =~= before.push(l@));
            return Response::Lines(lines);
        },
        Ok(c) => c,
    };
    let names = atoms_of_all(&premises, &conclusion);
    if names.len() > MAX_TABLE_ATOMS {
        return Response::TooManyAtoms;
    }
    let ghost nv = argument_atoms(ps, conclusion@);
    let ghost n = row_count(nv.len());
    let found = entails(&premises, &conclusion);
    let verdict = match found {
        None => {
            proof {
                lemma_first_counterexample(ps, conclusion@, nv, 0, n, n);
            }
            Line::Out(emphasized(" entails."))
        },
        Some(i) => {
            proof {
                lemma_first_counterexample(ps, conclusion@, nv, 0, n, i as nat);
            }
            let asg = assignment_for(i, &names);
            let mut text = String::from_str(" ");
            push_str_chars(&mut text, &emphasized(" does not entail: "));
            text.append(" ");
            push_str_chars(&mut text, &row_text(&asg));
            Line::Out(text)
        },
    };
    let ghost before = lines_view(lines@);
    lines.push(Line::Out(String::new()));
    lines.push(verdict);
    lines.push(Line::Out(String::new()));
    assert(lines_view(lines@) =~= before + seq![LineV::Out(seq![]), verdict@, LineV::Out(seq![])]);
    Response::Lines(lines)
}


/// The answer to `:equiv left, right`: whether the two sentences have the same
/// truth value in every row of the complete truth table over their atoms (those of
/// `left` first), or the first row where they differ.
pub open spec fn equiv_response(arg: Seq<char>) -> ResponseV {
    let k = char_pos(arg, ',');
    if k >= arg.len() {
        ResponseV::Lines(seq![LineV::Error(" usage: :equiv <formula>, <formula>"@)])
    } else {
        match read(trim(arg.take(k as int))) {
            Err(e) => ResponseV::Lines(seq![LineV::Error(" "@ + pipeline_error_text(e))]),
            Ok(a) => match read(trim(arg.skip(k + 1int))) {
                Err(e) => ResponseV::Lines(seq![LineV::Error(" "@ + pipeline_error_text(e))]),
                Ok(b) => {
                    let f = FormulaV::Iff(Box::new(a), Box::new(b));
                    if atoms(f).len() > MAX_TABLE_ATOMS {
                        ResponseV::TooManyAtoms
                    } else {
                        let names = atoms(f);
                        let n = row_count(names.len());
                        let i = first_row(f, names, false, 0, n);
                        let verdict = if i == n {
                            LineV::Out(
                                " "@ + show(a) + " "@ + emphasis("is equivalent to"@) + " "@ + show(
                                    b,
                                ),
                            )
                        } else {
                            LineV::Out(
                                " "@ + emphasis(" not equivalent, they differ when "@) + " "@
                                    + entries_text(row_entries(names, i)),
                            )
                        };
                        ResponseV::Lines(seq![LineV::Out(seq![]), verdict, LineV::Out(seq![])])
                    }
                },
            },
        }
    }
}

/// Answers `:equiv`: whether two sentences are equivalent, or a row where their
/// truth values differ.
pub fn check_equiv(arg: &str) -> (r: Response)
    ensures
        r@ == equiv_response(arg@),
{
    let cs = crate::lexer::chars_of(arg);
    let k = find_char(&cs, 0, cs.len(), ',');
    assert(cs@.subrange(0, cs@.len() as int) =~= arg@);
    if k >= cs.len() {
        return one_line(Line::Error(String::from_str(" usage: :equiv <formula>, <formula>")));
    }
    let (la, lb) = trim_bounds(&cs, 0, k);
    let (ra, rb) = trim_bounds(&cs, k + 1, cs.len());
    assert(cs@.subrange(0, k as int) =~= arg@.take(k as int));
    assert(cs@.subrange(k + 1, cs@.len() as int) =~= arg@.skip(k + 1int));
    let left = match parse_source(substring(&cs, la, lb).as_str()) {
        Err(e) => {
            return one_line(error_line(" ", &e));
        },
        Ok(f) => f,
    };
    let right = match parse_source(substring(&cs, ra, rb).as_str()) {
        Err(e) => {
            return one_line(error_line(" ", &e));
        },
        Ok(f) => f,
    };
    let mut head = String::from_str(" ");
    push_str_chars(&mut head, &left.to_string());
    head.append(" ");
    push_str_chars(&mut head, &emphasized("is equivalent to"));
    head.append(" ");
    push_str_chars(&mut head, &right.to_string());
    let formula = Formula::iff(left, right);
    let names = atoms_of(&formula);
    if names.len() > MAX_TABLE_ATOMS {
        return Response::TooManyAtoms;
    }
    let ghost f = formula@;
    let ghost nv = atoms(f);
    let col = result_column(&formula);
    let ghost n = row_count(nv.len());
    let verdict = if crate::eval::is_tautology(&col) {
        assert forall|k: nat| 0 <= k < n implies truth_value(f, #[trigger] row_valuation(nv, k))
            != false by {
            assert(col@[k as int] == truth_value(f, row_valuation(nv, k)));
        }
        proof {
            lemma_first_row(f, nv, false, 0, n, n);
        }
        Line::Out(head)
    } else {
        let len = col.len();
        let mut i: usize = 0;
        while col[i]
            invariant
                i < col@.len(),
                len == col@.len(),
                col@.len() == n,
                exists|k: int| i <= k < col@.len() && !col@[k],
                forall|k: int|
                    0 <= k < col@.len() ==> col@[k] == truth_value(f, row_valuation(nv, k as nat)),
                forall|k: nat| k < i ==> truth_value(f, #[trigger] row_valuation(nv, k)) != false,
            decreases col@.len() - i,
        {
            let ghost w = choose|k: int| i <= k < col@.len() && !col@[k];
            assert(col@[i as int] == truth_value(f, row_valuation(nv, i as nat)));
            i = i + 1;
        }
        assert(col@[i as int] == truth_value(f, row_valuation(nv, i as nat)));
        proof {
            lemma_first_row(f, nv, false, 0, n, i as nat);
        }
        let asg = assignment_for(i, &names);
        let mut text = String::from_str(" ");
        push_str_chars(&mut text, &emphasized(" not equivalent, they differ when "));
        text.append(" ");
        push_str_chars(&mut text, &row_text(&asg));
        Line::Out(text)
    };
    let mut lines: Vec<Line> = Vec::new();
    lines.push(Line::Out(String::new()));
    lines.push(verdict);
    lines.push(Line::Out(String::new()));
    assert(lines_view(lines@) =~= seq![LineV::Out(seq![]), verdict@, LineV::Out(seq![])]);
    Response::Lines(lines)
}

/// The answer to a command line (the text after `:`): its first word names the
/// command and the rest of the line, trimmed, is its argument.
pub open spec fn command_response(cmd: Seq<char>) -> ResponseV {
    let w = white_space_pos(cmd);
    let word = cmd.take(w as int);
    let arg = if w < cmd.len() {
        trim(cmd.skip(w + 1int))
    } else {
        seq![]
    };
    if word == "help"@ {
        ResponseV::Help
    } else if word == "quit"@ {
        ResponseV::Quit
    } else if word == "taut"@ {
        taut_response(arg)
    } else if word == "contra"@ {
        contra_response(arg)
    } else if word == "entails"@ || word == "entail"@ {
        entail_response(arg)
    } else if word == "equiv"@ {
        equiv_response(arg)
    } else {
        ResponseV::Lines(seq![LineV::Out(" unknown command: "@ + word)])
    }
}

/// The answer to one input line: nothing for an empty line, a command for a line
/// that starts with `:`, and otherwise the truth table of the sentence on it.
pub open spec fn line_response(line: Seq<char>) -> ResponseV {
    if line.len() == 0 {
        ResponseV::Lines(seq![])
    } else if line[0] == ':' {
        command_response(line.drop_first())
    } else {
        formula_response(line)
    }
}

fn same_text(a: &String, b: &str) -> (r: bool)
    ensures
        r == (a@ == b@),
{
    *a == String::from_str(b)
}

/// Runs a command (the text after `:`).
pub fn run_command(cmd: &str) -> (r: Response)
    ensures
        r@ == command_response(cmd@),
{
    let cs = crate::lexer::chars_of(cmd);
    let mut w: usize = 0;
    assert(cs@.skip(0) =~= cs@);
    while w < cs.len() && !crate::lexer::white_space_char(cs[w])
        invariant
            w <= cs@.len(),
            white_space_pos(cs@) == w + white_space_pos(cs@.skip(w as int)),
        decreases cs@.len() - w,
    {
        assert(cs@.skip(w as int).drop_first() =~= cs@.skip(w + 1));
        w = w + 1;
    }
    let word = substring(&cs, 0, w);
    assert(cs@.subrange(0, w as int) =~= cmd@.take(w as int));
    let arg = if w < cs.len() {
        let (a, b) = trim_bounds(&cs, w + 1, cs.len());
        assert(cs@.subrange(w + 1, cs@.len() as int) =~= cmd@.skip(w + 1int));
        substring(&cs, a, b)
    } else {
        String::new()
    };
    if same_text(&word, "help") {
        Response::Help
    } else if same_text(&word, "quit") {
        Response::Quit
    } else if same_text(&word, "taut") {
        check_taut(arg.as_str())
    } else if same_text(&word, "contra") {
        check_contra(arg.as_str())
    } else if same_text(&word, "entails") || same_text(&word, "entail") {
        check_entail(arg.as_str())
    } else if same_text(&word, "equiv") {
        check_equiv(arg.as_str())
    } else {
        let mut text = String::from_str(" unknown command: ");
        push_str_chars(&mut text, &word);
        one_line(Line::Out(text))
    }
}

/// Answers one input line.
pub fn process_line(line: &str) -> (r: Response)
    ensures
        r@ == line_response(line@),
{
    let n = line.unicode_len();
    if n == 0 {
        let lines: Vec<Line> = Vec::new();
        assert(lines_view(lines@) =~= Seq::<LineV>::empty());
        return Response::Lines(lines);
    }
    if line.get_char(0) == ':' {
        let cs = crate::lexer::chars_of(line);
        let cmd = substring(&cs, 1, n);
        assert(cs@.subrange(1, n as int) =~= line@.drop_first());
        run_command(cmd.as_str())
    } else {
        run_formula(line)
    }
}

} // verus!
