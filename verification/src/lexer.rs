use vstd::prelude::*;
use vstd::std_specs::iter::IteratorSpec;

verus! {

/// A lexical token of truth-functional logic.
#[derive(PartialEq, Eq, Debug, Clone)]
pub enum Token {
    LeftParen,
    RightParen,
    Atom(String),
    And,
    Or,
    Iff,
    Implies,
    Not,
}

/// The mathematical value of a token: an atom is its sequence of characters.
pub enum TokenV {
    LeftParen,
    RightParen,
    Atom(Seq<char>),
    And,
    Or,
    Iff,
    Implies,
    Not,
}

impl View for Token {
    type V = TokenV;

    open spec fn view(&self) -> TokenV {
        match self {
            Token::LeftParen => TokenV::LeftParen,
            Token::RightParen => TokenV::RightParen,
            Token::Atom(name) => TokenV::Atom(name@),
            Token::And => TokenV::And,
            Token::Or => TokenV::Or,
            Token::Iff => TokenV::Iff,
            Token::Implies => TokenV::Implies,
            Token::Not => TokenV::Not,
        }
    }
}

/// Why a source text could not be split into tokens.
#[derive(Debug, Clone, PartialEq)]
pub enum LexError {
    Unexpected(char),
    Incomplete { expected: &'static str, found: Option<char> },
}

/// The characters with the Unicode `White_Space` property.
pub open spec fn is_white_space(c: char) -> bool {
    ||| ('\u{9}' <= c && c <= '\u{d}')
    ||| c == ' '
    ||| c == '\u{85}'
    ||| c == '\u{a0}'
    ||| c == '\u{1680}'
    ||| ('\u{2000}' <= c && c <= '\u{200a}')
    ||| c == '\u{2028}'
    ||| c == '\u{2029}'
    ||| c == '\u{202f}'
    ||| c == '\u{205f}'
    ||| c == '\u{3000}'
}

pub open spec fn is_digit(c: char) -> bool {
    '0' <= c && c <= '9'
}

pub open spec fn is_upper(c: char) -> bool {
    'A' <= c && c <= 'Z'
}

pub(crate) fn white_space_char(c: char) -> (r: bool)
    ensures
        r == is_white_space(c),
{
    ('\u{9}' <= c && c <= '\u{d}') || c == ' ' || c == '\u{85}' || c == '\u{a0}' || c
        == '\u{1680}' || ('\u{2000}' <= c && c <= '\u{200a}') || c == '\u{2028}' || c
        == '\u{2029}' || c == '\u{202f}' || c == '\u{205f}' || c == '\u{3000}'
}

fn digit(c: char) -> (r: bool)
    ensures
        r == is_digit(c),
{
    '0' <= c && c <= '9'
}

fn upper(c: char) -> (r: bool)
    ensures
        r == is_upper(c),
{
    'A' <= c && c <= 'Z'
}


/// Number of leading decimal digits of `s`.
pub open spec fn digit_run(s: Seq<char>) -> nat
    decreases s.len(),
{
    if s.len() > 0 && is_digit(s[0]) {
        1 + digit_run(s.drop_first())
    } else {
        0
    }
}

/// Number of characters before the first line feed of `s` (all of `s` when it has none).
pub open spec fn line_len(s: Seq<char>) -> nat
    decreases s.len(),
{
    if s.len() > 0 && s[0] != '\n' {
        1 + line_len(s.drop_first())
    } else {
        0
    }
}

pub proof fn lemma_digit_run_bound(s: Seq<char>)
    ensures
        digit_run(s) <= s.len(),
    decreases s.len(),
{
    if s.len() > 0 && is_digit(s[0]) {
        lemma_digit_run_bound(s.drop_first());
    }
}

pub proof fn lemma_line_len_bound(s: Seq<char>)
    ensures
        line_len(s) <= s.len(),
    decreases s.len(),
{
    if s.len() > 0 && s[0] != '\n' {
        lemma_line_len_bound(s.drop_first());
    }
}

/// Puts `t` in front of a successful lexing result; an error stays as it is.
pub open spec fn cons_token(t: TokenV, r: Result<Seq<TokenV>, LexError>) -> Result<
    Seq<TokenV>,
    LexError,
> {
    match r {
        Ok(ts) => Ok(seq![t] + ts),
        Err(e) => Err(e),
    }
}

/// Puts the tokens `ts` in front of a successful lexing result.
pub open spec fn prefix_tokens(ts: Seq<TokenV>, r: Result<Seq<TokenV>, LexError>) -> Result<
    Seq<TokenV>,
    LexError,
> {
    match r {
        Ok(rest) => Ok(ts + rest),
        Err(e) => Err(e),
    }
}

proof fn lemma_prefix_cons(before: Seq<TokenV>, t: TokenV, r: Result<Seq<TokenV>, LexError>)
    ensures
        prefix_tokens(before, cons_token(t, r)) == prefix_tokens(before.push(t), r),
{
    if let Ok(rest) = r {
        assert(before + (seq![t] + rest) =~= before.push(t) + rest);
    }
}

/// The token that a single-character symbol stands for.
pub open spec fn symbol_token(c: char) -> Option<TokenV> {
    if c == '(' {
        Some(TokenV::LeftParen)
    } else if c == ')' {
        Some(TokenV::RightParen)
    } else if c == '~' || c == '!' || c == '\u{ac}' {
        Some(TokenV::Not)
    } else if c == '&' || c == '\u{2227}' {
        Some(TokenV::And)
    } else if c == '|' || c == '\u{2228}' {
        Some(TokenV::Or)
    } else if c == '\u{2192}' {
        Some(TokenV::Implies)
    } else if c == '\u{2194}' {
        Some(TokenV::Iff)
    } else {
        None
    }
}

/// The tokens of a source text, or the first lexical error in it.
///
/// Whitespace separates tokens; `->` and `<->` are the ASCII spellings of the
/// conditional and biconditional; `--` starts a comment that runs to the end of
/// the line; an atom is an uppercase ASCII letter followed by any number of digits.
pub open spec fn lex(s: Seq<char>) -> Result<Seq<TokenV>, LexError>
    decreases s.len(),
{
    if s.len() == 0 {
        Ok(seq![])
    } else {
        let c = s[0];
        let rest = s.drop_first();
        if is_white_space(c) {
            lex(rest)
        } else if symbol_token(c) is Some {
            cons_token(symbol_token(c)->0, lex(rest))
        } else if c == '-' {
            if rest.len() == 0 {
                Err(LexError::Incomplete { expected: "'>' after '-", found: None })
            } else if rest[0] == '>' {
                cons_token(TokenV::Implies, lex(rest.drop_first()))
            } else if rest[0] == '-' {
                let body = rest.drop_first();
                proof {
                    lemma_line_len_bound(body);
                }
                lex(body.skip(line_len(body) as int))
            } else {
                Err(LexError::Incomplete { expected: "'>' after '-", found: Some(rest[0]) })
            }
        } else if c == '<' {
            if rest.len() == 0 {
                Err(LexError::Incomplete { expected: "'-' after '<'", found: None })
            } else if rest[0] != '-' {
                Err(LexError::Incomplete { expected: "'-' after '<'", found: Some(rest[0]) })
            } else if rest.len() == 1 {
                Err(LexError::Incomplete { expected: "'>' after '<-'", found: None })
            } else if rest[1] != '>' {
                Err(LexError::Incomplete { expected: "'>' after '<-'", found: Some(rest[1]) })
            } else {
                cons_token(TokenV::Iff, lex(rest.skip(2)))
            }
        } else if is_upper(c) {
            proof {
                lemma_digit_run_bound(rest);
            }
            let k = digit_run(rest) as int;
            cons_token(TokenV::Atom(seq![c] + rest.take(k)), lex(rest.skip(k)))
        } else {
            Err(LexError::Unexpected(c))
        }
    }
}


pub open spec fn tokens_view(ts: Seq<Token>) -> Seq<TokenV> {
    ts.map_values(|t: Token| t@)
}

/// The mathematical value of the result of `tokenize`.
pub open spec fn lex_result_view(r: Result<Vec<Token>, LexError>) -> Result<Seq<TokenV>, LexError> {
    match r {
        Ok(ts) => Ok(tokens_view(ts@)),
        Err(e) => Err(e),
    }
}

/// std's `String::push`. The contract claims what its documentation says: the
/// string afterwards holds its former characters followed by `c`.
#[verifier::external_body]
pub(crate) fn push_char(s: &mut String, c: char)
    ensures
        final(s)@ == old(s)@.push(c),
{
    s.push(c);
}

/// The characters of `source`, in order.
pub(crate) fn chars_of(source: &str) -> (cs: Vec<char>)
    ensures
        cs@ == source@,
{
    broadcast use vstd::string::group_string_axioms;

    let mut it = source.chars();
    let mut cs: Vec<char> = Vec::new();
    loop
        invariant
            cs@ + it.remaining() == source@,
            it.decrease() is Some,
            it.obeys_prophetic_iter_laws(),
        ensures
            cs@ == source@,
        decreases it.decrease()->0,
    {
        match it.next() {
            Some(c) => {
                cs.push(c);
                assert(cs@ + it.remaining() =~= source@);
            },
            None => {
                assert(cs@ =~= source@);
                break;
            },
        }
    }
    cs
}

/// Skips a comment body: returns the position of the next line feed, or the end.
fn skip_comment(cs: &Vec<char>, start: usize) -> (end: usize)
    requires
        start <= cs@.len(),
    ensures
        end == start + line_len(cs@.skip(start as int)),
        end <= cs@.len(),
{
    let mut i = start;
    while i < cs.len() && cs[i] != '\n'
        invariant
            start <= i <= cs@.len(),
            line_len(cs@.skip(start as int)) == (i - start) + line_len(cs@.skip(i as int)),
        decreases cs@.len() - i,
    {
        assert(cs@.skip(i as int).drop_first() =~= cs@.skip(i + 1));
        i = i + 1;
    }
    i
}

/// Reads an atom whose first letter is `first` and whose digits start at `start`.
fn lex_atom(first: char, cs: &Vec<char>, start: usize) -> (r: (Token, usize))
    requires
        start <= cs@.len(),
    ensures
        r.1 == start + digit_run(cs@.skip(start as int)),
        r.1 <= cs@.len(),
        r.0@ == TokenV::Atom(seq![first] + cs@.skip(start as int).take(digit_run(cs@.skip(start as int)) as int)),
{
    let mut name = String::new();
    push_char(&mut name, first);
    let mut i = start;
    while i < cs.len() && digit(cs[i])
        invariant
            start <= i <= cs@.len(),
            digit_run(cs@.skip(start as int)) == (i - start) + digit_run(cs@.skip(i as int)),
            name@ == seq![first] + cs@.subrange(start as int, i as int),
        decreases cs@.len() - i,
    {
        assert(cs@.skip(i as int).drop_first() =~= cs@.skip(i + 1));
        push_char(&mut name, cs[i]);
        i = i + 1;
        assert(name@ =~= seq![first] + cs@.subrange(start as int, i as int));
    }
    assert(cs@.skip(start as int).take((i - start) as int) =~= cs@.subrange(start as int, i as int));
    (Token::Atom(name), i)
}

/// Consumes the character `want` at `pos`, or reports what was found there instead.
fn expect(cs: &Vec<char>, pos: usize, want: char, context: &'static str) -> (r: Result<
    usize,
    LexError,
>)
    requires
        pos <= cs@.len(),
    ensures
        pos < cs@.len() && cs@[pos as int] == want ==> r == Ok::<usize, LexError>((pos + 1) as usize),
        pos < cs@.len() && cs@[pos as int] != want ==> r == Err::<usize, LexError>(
            LexError::Incomplete { expected: context, found: Some(cs@[pos as int]) },
        ),
        pos == cs@.len() ==> r == Err::<usize, LexError>(
            LexError::Incomplete { expected: context, found: None },
        ),
{
    if pos < cs.len() {
        let d = cs[pos];
        if d == want {
            Ok(pos + 1)
        } else {
            Err(LexError::Incomplete { expected: context, found: Some(d) })
        }
    } else {
        Err(LexError::Incomplete { expected: context, found: None })
    }
}

/// Splits a source text into tokens.
pub fn tokenize(source: &str) -> (res: Result<Vec<Token>, LexError>)
    ensures
        lex_result_view(res) == lex(source@),
{
    let cs = chars_of(source);
    let n = cs.len();
    let mut tokens: Vec<Token> = Vec::new();
    let mut i: usize = 0;
    assert(cs@.skip(0) =~= cs@);
    while i < n
        invariant
            n == cs@.len(),
            i <= n,
            cs@ == source@,
            lex(source@) == prefix_tokens(tokens_view(tokens@), lex(cs@.skip(i as int))),
        decreases n - i,
    {
        let ghost s = cs@.skip(i as int);
        let ghost before = tokens_view(tokens@);
        let c = cs[i];
        assert(s[0] == c);
        assert(s.drop_first() =~= cs@.skip(i + 1));
        if white_space_char(c) {
            i = i + 1;
        } else if c == '(' || c == ')' || c == '~' || c == '!' || c == '\u{ac}' || c == '&' || c
            == '\u{2227}' || c == '|' || c == '\u{2228}' || c == '\u{2192}' || c == '\u{2194}' {
            let t = if c == '(' {
                Token::LeftParen
            } else if c == ')' {
                Token::RightParen
            } else if c == '~' || c == '!' || c == '\u{ac}' {
                Token::Not
            } else if c == '&' || c == '\u{2227}' {
                Token::And
            } else if c == '|' || c == '\u{2228}' {
                Token::Or
            } else if c == '\u{2192}' {
                Token::Implies
            } else {
                Token::Iff
            };
            assert(symbol_token(c) == Some(t@));
            tokens.push(t);
            assert(tokens_view(tokens@) =~= before.push(t@));
            proof {
                lemma_prefix_cons(before, t@, lex(cs@.skip(i + 1)));
            }
            i = i + 1;
        } else if c == '-' {
            if i + 1 >= n {
                return Err(LexError::Incomplete { expected: "'>' after '-", found: None });
            }
            let d = cs[i + 1];
            assert(s.drop_first()[0] == d);
            if d == '>' {
                tokens.push(Token::Implies);
                assert(tokens_view(tokens@) =~= before.push(TokenV::Implies));
                assert(s.drop_first().drop_first() =~= cs@.skip(i + 2));
                proof {
                    lemma_prefix_cons(before, TokenV::Implies, lex(cs@.skip(i + 2)));
                }
                i = i + 2;
            } else if d == '-' {
                assert(s.drop_first().drop_first() =~= cs@.skip(i + 2));
                let end = skip_comment(&cs, i + 2);
                assert(cs@.skip(i + 2).skip(line_len(cs@.skip(i + 2)) as int) =~= cs@.skip(
                    end as int,
                ));
                i = end;
            } else {
                return Err(LexError::Incomplete { expected: "'>' after '-", found: Some(d) });
            }
        } else if c == '<' {
            let p1 = expect(&cs, i + 1, '-', "'-' after '<'");
            match p1 {
                Err(e) => {
                    return Err(e);
                },
                Ok(p) => {
                    let p2 = expect(&cs, p, '>', "'>' after '<-'");
                    match p2 {
                        Err(e) => {
                            return Err(e);
                        },
                        Ok(q) => {
                            tokens.push(Token::Iff);
                            assert(tokens_view(tokens@) =~= before.push(TokenV::Iff));
                            assert(s.drop_first().skip(2) =~= cs@.skip(q as int));
                            proof {
                                lemma_prefix_cons(before, TokenV::Iff, lex(cs@.skip(q as int)));
                            }
                            i = q;
                        },
                    }
                },
            }
        } else if upper(c) {
            let (t, end) = lex_atom(c, &cs, i + 1);
            tokens.push(t);
            assert(tokens_view(tokens@) =~= before.push(t@));
            assert(s.drop_first().skip(digit_run(s.drop_first()) as int) =~= cs@.skip(end as int));
            proof {
                lemma_prefix_cons(before, t@, lex(cs@.skip(end as int)));
            }
            i = end;
        } else {
            return Err(LexError::Unexpected(c));
        }
    }
    assert(cs@.skip(n as int) =~= Seq::<char>::empty());
    assert(tokens_view(tokens@) + Seq::<TokenV>::empty() =~= tokens_view(tokens@));
    Ok(tokens)
}


/// Input is liberal: the keyboard spellings `->`, `<->`, `~`, `!`, `&` and `|` read
/// exactly as the book's symbols `→`, `↔`, `¬`, `∧` and `∨`, whatever follows.
pub proof fn law_ascii_spellings(s: Seq<char>)
    ensures
        lex(seq!['-', '>'] + s) == lex(seq!['\u{2192}'] + s),
        lex(seq!['<', '-', '>'] + s) == lex(seq!['\u{2194}'] + s),
        lex(seq!['~'] + s) == lex(seq!['\u{ac}'] + s),
        lex(seq!['!'] + s) == lex(seq!['\u{ac}'] + s),
        lex(seq!['&'] + s) == lex(seq!['\u{2227}'] + s),
        lex(seq!['|'] + s) == lex(seq!['\u{2228}'] + s),
{
    let arrow = seq!['-', '>'] + s;
    assert(arrow.drop_first()[0] == '>');
    assert(arrow.drop_first().drop_first() =~= s);
    assert((seq!['\u{2192}'] + s).drop_first() =~= s);
    let iff = seq!['<', '-', '>'] + s;
    assert(iff.drop_first()[0] == '-' && iff.drop_first()[1] == '>');
    assert(iff.drop_first().skip(2) =~= s);
    assert((seq!['\u{2194}'] + s).drop_first() =~= s);
    assert((seq!['~'] + s).drop_first() =~= s);
    assert((seq!['!'] + s).drop_first() =~= s);
    assert((seq!['\u{ac}'] + s).drop_first() =~= s);
    assert((seq!['&'] + s).drop_first() =~= s);
    assert((seq!['\u{2227}'] + s).drop_first() =~= s);
    assert((seq!['|'] + s).drop_first() =~= s);
    assert((seq!['\u{2228}'] + s).drop_first() =~= s);
}

pub(crate) proof fn lemma_line_len_concat(c: Seq<char>, s: Seq<char>)
    requires
        forall|i: int| 0 <= i < c.len() ==> c[i] != '\n',
    ensures
        line_len(c + s) == c.len() + line_len(s),
    decreases c.len(),
{
    if c.len() == 0 {
        assert(c + s =~= s);
    } else {
        assert((c + s)[0] == c[0]);
        assert((c + s).drop_first() =~= c.drop_first() + s);
        assert forall|i: int| 0 <= i < c.drop_first().len() implies c.drop_first()[i] != '\n' by {
            assert(c.drop_first()[i] == c[i + 1]);
        }
        lemma_line_len_concat(c.drop_first(), s);
    }
}

/// A comment runs from `--` to the end of the line: it and the line feed that
/// ends it read as nothing, and so does a comment at the end of the input.
pub proof fn law_comments(c: Seq<char>, s: Seq<char>)
    requires
        forall|i: int| 0 <= i < c.len() ==> c[i] != '\n',
    ensures
        lex(seq!['-', '-'] + c + seq!['\n'] + s) == lex(s),
        lex(seq!['-', '-'] + c) == Ok::<Seq<TokenV>, LexError>(seq![]),
{
    let x = seq!['-', '-'] + c + seq!['\n'] + s;
    let body = x.drop_first().drop_first();
    assert(x.drop_first()[0] == '-');
    assert(body =~= c + (seq!['\n'] + s));
    lemma_line_len_concat(c, seq!['\n'] + s);
    assert(line_len(seq!['\n'] + s) == 0);
    assert(body.skip(c.len() as int) =~= seq!['\n'] + s);
    assert((seq!['\n'] + s).drop_first() =~= s);
    assert(is_white_space('\n'));
    assert(x[0] == '-' && !is_white_space('-') && symbol_token('-') is None);
    assert(lex(x) == lex(body.skip(line_len(body) as int)));
    assert((seq!['\n'] + s)[0] == '\n');
    assert(lex(seq!['\n'] + s) == lex(s));
    let y = seq!['-', '-'] + c;
    let ybody = y.drop_first().drop_first();
    assert(y.drop_first()[0] == '-');
    assert(ybody =~= c + Seq::<char>::empty());
    lemma_line_len_concat(c, Seq::<char>::empty());
    assert(ybody.skip(c.len() as int) =~= Seq::<char>::empty());
    assert(y[0] == '-');
    assert(lex(y) == lex(ybody.skip(line_len(ybody) as int)));
    assert(lex(Seq::<char>::empty()) == Ok::<Seq<TokenV>, LexError>(seq![]));
}

} // verus!
