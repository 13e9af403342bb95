//! Tokenization of the diagram-description language.
//!
//! The source alphabet is made of identifier/word characters, arrow
//! characters, the structural characters `{` `}` `;`, double-quoted label
//! text, and whitespace. [`spec_lex`] is the mathematical tokenizer;
//! [`lex`] computes exactly what it describes.

use vstd::prelude::*;

verus! {

/// Why a document failed to parse.
#[derive(Clone, Copy, Debug, PartialEq, Eq, Structural)]
pub enum ParseError {
    /// Grammar rejection: a character outside the language's alphabet, or
    /// an unterminated quoted label.
    Text,
    /// A construct is missing a required sub-part.
    Missing,
    /// A token of one kind stood where another kind was required.
    Mismatch { expected: Tag, actual: Tag },
}

/// The kinds of construct a parse step can require or meet.
#[derive(Clone, Copy, Debug, PartialEq, Eq, Structural)]
pub enum Tag {
    /// An identifier naming an entity, a field, or a field type.
    Name,
    /// One of the four cardinality tokens.
    Card,
    /// An arrow body.
    Arrow,
    /// A word that is neither an identifier nor a cardinality token.
    Word,
    /// `{`
    BlockOpen,
    /// `}`
    BlockClose,
    /// `;`
    FieldEnd,
    /// A quoted label.
    Label,
}

/// One token of the source text.
#[derive(Clone, Debug)]
pub enum Token {
    Word(String),
    Arrow(String),
    LBrace,
    RBrace,
    Semi,
    Quoted(String),
}

/// The mathematical value of a [`Token`].
pub enum TokenV {
    Word(Seq<char>),
    Arrow(Seq<char>),
    LBrace,
    RBrace,
    Semi,
    Quoted(Seq<char>),
}

impl View for Token {
    type V = TokenV;

    open spec fn view(&self) -> TokenV {
        match self {
            Token::Word(w) => TokenV::Word(w@),
            Token::Arrow(a) => TokenV::Arrow(a@),
            Token::LBrace => TokenV::LBrace,
            Token::RBrace => TokenV::RBrace,
            Token::Semi => TokenV::Semi,
            Token::Quoted(l) => TokenV::Quoted(l@),
        }
    }
}

/// The view of a token vector, token by token.
pub open spec fn toks_view(toks: Seq<Token>) -> Seq<TokenV> {
    toks.map_values(|t: Token| t@)
}

/// Whitespace between tokens.
pub open spec fn is_space_char(c: char) -> bool {
    c == ' ' || c == '\t' || c == '\n' || c == '\r'
}

/// A character that may stand in a word: letters, digits, `_` and `?`
/// (the latter only occurs in the cardinality tokens `1?` and `n?`).
pub open spec fn is_word_char(c: char) -> bool {
    ('a' as u32 <= c as u32 && c as u32 <= 'z' as u32)
        || ('A' as u32 <= c as u32 && c as u32 <= 'Z' as u32)
        || ('0' as u32 <= c as u32 && c as u32 <= '9' as u32)
        || c == '_'
        || c == '?'
}

/// A character that may stand in an arrow body.
pub open spec fn is_arrow_char(c: char) -> bool {
    c == '-' || c == '=' || c == '<' || c == '>'
}

/// Length of the longest prefix of `s` made of word characters.
pub open spec fn word_len(s: Seq<char>) -> nat
    decreases s.len(),
{
    if s.len() == 0 || !is_word_char(s[0]) {
        0
    } else {
        1 + word_len(s.drop_first())
    }
}

/// Length of the longest prefix of `s` made of arrow characters.
pub open spec fn arrow_len(s: Seq<char>) -> nat
    decreases s.len(),
{
    if s.len() == 0 || !is_arrow_char(s[0]) {
        0
    } else {
        1 + arrow_len(s.drop_first())
    }
}

/// Position of the first `"` in `s`, if any: the length of a quoted
/// label's contents, `s` being the text after the opening quote.
pub open spec fn quote_len(s: Seq<char>) -> Option<nat>
    decreases s.len(),
{
    if s.len() == 0 {
        None
    } else if s[0] == '"' {
        Some(0)
    } else {
        match quote_len(s.drop_first()) {
            None => None,
            Some(k) => Some(k + 1),
        }
    }
}

pub proof fn lemma_word_len_le(s: Seq<char>)
    ensures
        word_len(s) <= s.len(),
    decreases s.len(),
{
    if s.len() != 0 && is_word_char(s[0]) {
        lemma_word_len_le(s.drop_first());
    }
}

/// `word_len` is pinned by any witness of a maximal word prefix.
pub proof fn lemma_word_len_is(s: Seq<char>, k: int)
    requires
        0 <= k <= s.len(),
        forall|m: int| 0 <= m < k ==> is_word_char(s[m]),
        k == s.len() || !is_word_char(s[k]),
    ensures
        word_len(s) == k,
    decreases k,
{
    if k == 0 {
    } else {
        assert(is_word_char(s[0]));
        lemma_word_len_is(s.drop_first(), k - 1);
    }
}

pub proof fn lemma_arrow_len_le(s: Seq<char>)
    ensures
        arrow_len(s) <= s.len(),
    decreases s.len(),
{
    if s.len() != 0 && is_arrow_char(s[0]) {
        lemma_arrow_len_le(s.drop_first());
    }
}

/// `arrow_len` is pinned by any witness of a maximal arrow prefix.
pub proof fn lemma_arrow_len_is(s: Seq<char>, k: int)
    requires
        0 <= k <= s.len(),
        forall|m: int| 0 <= m < k ==> is_arrow_char(s[m]),
        k == s.len() || !is_arrow_char(s[k]),
    ensures
        arrow_len(s) == k,
    decreases k,
{
    if k == 0 {
    } else {
        assert(is_arrow_char(s[0]));
        lemma_arrow_len_is(s.drop_first(), k - 1);
    }
}

pub proof fn lemma_quote_len_bound(s: Seq<char>)
    ensures
        match quote_len(s) {
            Some(k) => k < s.len() && s[k as int] == '"',
            None => true,
        },
    decreases s.len(),
{
    if s.len() != 0 && s[0] != '"' {
        lemma_quote_len_bound(s.drop_first());
    }
}

/// `quote_len` is pinned by the position of the first closing quote.
pub proof fn lemma_quote_len_is(s: Seq<char>, k: int)
    requires
        0 <= k < s.len(),
        forall|m: int| 0 <= m < k ==> s[m] != '"',
        s[k] == '"',
    ensures
        quote_len(s) == Some(k as nat),
    decreases k,
{
    if k == 0 {
    } else {
        lemma_quote_len_is(s.drop_first(), k - 1);
    }
}

/// A text with no closing quote has no label contents.
pub proof fn lemma_quote_len_none(s: Seq<char>)
    requires
        forall|m: int| 0 <= m < s.len() ==> s[m] != '"',
    ensures
        quote_len(s) == None::<nat>,
    decreases s.len(),
{
    if s.len() != 0 {
        lemma_quote_len_none(s.drop_first());
    }
}

/// The mathematical tokenizer: `None` on a character outside the alphabet
/// or an unterminated quote, otherwise the token sequence.
pub open spec fn spec_lex(s: Seq<char>) -> Option<Seq<TokenV>>
    decreases s.len(),
    via spec_lex_decreases
{
    if s.len() == 0 {
        Some(Seq::empty())
    } else if is_space_char(s[0]) {
        spec_lex(s.drop_first())
    } else if s[0] == '{' {
        lex_combine(seq![TokenV::LBrace], spec_lex(s.drop_first()))
    } else if s[0] == '}' {
        lex_combine(seq![TokenV::RBrace], spec_lex(s.drop_first()))
    } else if s[0] == ';' {
        lex_combine(seq![TokenV::Semi], spec_lex(s.drop_first()))
    } else if s[0] == '"' {
        match quote_len(s.drop_first()) {
            None => None,
            Some(k) => lex_combine(
                seq![TokenV::Quoted(s.drop_first().take(k as int))],
                spec_lex(s.drop_first().skip(k as int + 1)),
            ),
        }
    } else if is_word_char(s[0]) {
        lex_combine(
            seq![TokenV::Word(s.take(word_len(s) as int))],
            spec_lex(s.skip(word_len(s) as int)),
        )
    } else if is_arrow_char(s[0]) {
        lex_combine(
            seq![TokenV::Arrow(s.take(arrow_len(s) as int))],
            spec_lex(s.skip(arrow_len(s) as int)),
        )
    } else {
        None
    }
}

#[via_fn]
proof fn spec_lex_decreases(s: Seq<char>) {
    if s.len() != 0 {
        if s[0] == '"' {
            lemma_quote_len_bound(s.drop_first());
        } else if is_word_char(s[0]) {
            lemma_word_len_le(s);
        } else if is_arrow_char(s[0]) {
            lemma_arrow_len_le(s);
        }
    }
}

/// Prepends already-lexed tokens to the outcome on the remaining text.
pub open spec fn lex_combine(prefix: Seq<TokenV>, rest: Option<Seq<TokenV>>) -> Option<
    Seq<TokenV>,
> {
    match rest {
        None => None,
        Some(ts) => Some(prefix + ts),
    }
}

proof fn lemma_lex_combine_assoc(pre: Seq<TokenV>, t: TokenV, rest: Option<Seq<TokenV>>)
    ensures
        lex_combine(pre, lex_combine(seq![t], rest)) == lex_combine(pre.push(t), rest),
{
    match rest {
        None => {},
        Some(ts) => {
            assert(pre + (seq![t] + ts) =~= pre.push(t) + ts);
        },
    }
}

fn space_char(c: char) -> (b: bool)
    ensures
        b == is_space_char(c),
{
    c == ' ' || c == '\t' || c == '\n' || c == '\r'
}

fn word_char(c: char) -> (b: bool)
    ensures
        b == is_word_char(c),
{
    (('a' as u32) <= (c as u32) && (c as u32) <= ('z' as u32)) || (('A' as u32) <= (c as u32) && (c
        as u32) <= ('Z' as u32)) || (('0' as u32) <= (c as u32) && (c as u32) <= ('9' as u32)) || c
        == '_' || c == '?'
}

fn arrow_char(c: char) -> (b: bool)
    ensures
        b == is_arrow_char(c),
{
    c == '-' || c == '=' || c == '<' || c == '>'
}

/// Tokenizes source text, computing exactly [`spec_lex`].
pub fn lex(src: &str) -> (r: Result<Vec<Token>, ParseError>)
    ensures
        match spec_lex(src@) {
            Some(ts) => r is Ok && toks_view(r->Ok_0@) == ts,
            None => r == Err::<Vec<Token>, ParseError>(ParseError::Text),
        },
{
    let ghost cs = src@;
    let n: usize = src.unicode_len();
    let mut toks: Vec<Token> = Vec::new();
    let mut i: usize = 0;
    proof {
        assert(cs.skip(0) =~= cs);
        assert(toks_view(toks@) =~= Seq::<TokenV>::empty());
        if spec_lex(cs) is Some {
            assert(Seq::<TokenV>::empty() + spec_lex(cs)->Some_0 =~= spec_lex(cs)->Some_0);
        }
    }
    while i < n
        invariant
            cs == src@,
            n == cs.len(),
            i <= n,
            spec_lex(cs) == lex_combine(toks_view(toks@), spec_lex(cs.skip(i as int))),
        decreases n - i,
    {
        let ghost s_i = cs.skip(i as int);
        let ghost pre = toks_view(toks@);
        proof {
            assert(s_i.len() == n - i);
            assert(s_i[0] == cs[i as int]);
        }
        let c = src.get_char(i);
        if space_char(c) {
            proof {
                assert(s_i.drop_first() =~= cs.skip(i as int + 1));
            }
            i = i + 1;
        } else if c == '{' {
            proof {
                assert(s_i.drop_first() =~= cs.skip(i as int + 1));
                lemma_lex_combine_assoc(pre, TokenV::LBrace, spec_lex(cs.skip(i as int + 1)));
                assert(toks_view(toks@.push(Token::LBrace)) =~= pre.push(TokenV::LBrace));
            }
            toks.push(Token::LBrace);
            i = i + 1;
        } else if c == '}' {
            proof {
                assert(s_i.drop_first() =~= cs.skip(i as int + 1));
                lemma_lex_combine_assoc(pre, TokenV::RBrace, spec_lex(cs.skip(i as int + 1)));
                assert(toks_view(toks@.push(Token::RBrace)) =~= pre.push(TokenV::RBrace));
            }
            toks.push(Token::RBrace);
            i = i + 1;
        } else if c == ';' {
            proof {
                assert(s_i.drop_first() =~= cs.skip(i as int + 1));
                lemma_lex_combine_assoc(pre, TokenV::Semi, spec_lex(cs.skip(i as int + 1)));
                assert(toks_view(toks@.push(Token::Semi)) =~= pre.push(TokenV::Semi));
            }
            toks.push(Token::Semi);
            i = i + 1;
        } else if c == '"' {
            let mut j: usize = i + 1;
            while j < n && src.get_char(j) != '"'
                invariant
                    cs == src@,
                    n == cs.len(),
                    i + 1 <= j <= n,
                    forall|m: int| i + 1 <= m < j ==> cs[m] != '"',
                decreases n - j,
            {
                j = j + 1;
            }
            if j == n {
                proof {
                    assert(forall|m: int|
                        0 <= m < s_i.drop_first().len() ==> s_i.drop_first()[m] == cs[
                        i as int + 1 + m] && s_i.drop_first()[m] != '"');
                    lemma_quote_len_none(s_i.drop_first());
                }
                return Err(ParseError::Text);
            }
            let l = src.substring_char(i + 1, j);
            let tok = Token::Quoted(String::from_str(l));
            proof {
                assert(forall|m: int|
                    0 <= m < j - i - 1 ==> s_i.drop_first()[m] == cs[i as int + 1 + m] && s_i
                        .drop_first()[m] != '"');
                assert(s_i.drop_first()[j - i - 1] == cs[j as int]);
                lemma_quote_len_is(s_i.drop_first(), j - i - 1);
                assert(s_i.drop_first().take(j - i - 1) =~= cs.subrange(i as int + 1, j as int));
                assert(s_i.drop_first().skip(j - i) =~= cs.skip(j as int + 1));
                lemma_lex_combine_assoc(
                    pre,
                    TokenV::Quoted(l@),
                    spec_lex(cs.skip(j as int + 1)),
                );
                assert(toks_view(toks@.push(tok)) =~= pre.push(TokenV::Quoted(l@)));
            }
            toks.push(tok);
            i = j + 1;
        } else if word_char(c) {
            let mut j: usize = i + 1;
            while j < n && word_char(src.get_char(j))
                invariant
                    cs == src@,
                    n == cs.len(),
                    i + 1 <= j <= n,
                    forall|m: int| i <= m < j ==> is_word_char(cs[m]),
                decreases n - j,
            {
                j = j + 1;
            }
            let w = src.substring_char(i, j);
            let tok = Token::Word(String::from_str(w));
            proof {
                assert(forall|m: int|
                    0 <= m < j - i ==> s_i[m] == cs[i as int + m] && is_word_char(s_i[m]));
                if j < n {
                    assert(s_i[j - i] == cs[j as int]);
                }
                lemma_word_len_is(s_i, j - i);
                assert(s_i.take(j - i) =~= cs.subrange(i as int, j as int));
                assert(s_i.skip(j - i) =~= cs.skip(j as int));
                lemma_lex_combine_assoc(pre, TokenV::Word(w@), spec_lex(cs.skip(j as int)));
                assert(toks_view(toks@.push(tok)) =~= pre.push(TokenV::Word(w@)));
            }
            toks.push(tok);
            i = j;
        } else if arrow_char(c) {
            let mut j: usize = i + 1;
            while j < n && arrow_char(src.get_char(j))
                invariant
                    cs == src@,
                    n == cs.len(),
                    i + 1 <= j <= n,
                    forall|m: int| i <= m < j ==> is_arrow_char(cs[m]),
                decreases n - j,
            {
                j = j + 1;
            }
            let a = src.substring_char(i, j);
            let tok = Token::Arrow(String::from_str(a));
            proof {
                assert(forall|m: int|
                    0 <= m < j - i ==> s_i[m] == cs[i as int + m] && is_arrow_char(s_i[m]));
                if j < n {
                    assert(s_i[j - i] == cs[j as int]);
                }
                lemma_arrow_len_is(s_i, j - i);
                assert(s_i.take(j - i) =~= cs.subrange(i as int, j as int));
                assert(s_i.skip(j - i) =~= cs.skip(j as int));
                lemma_lex_combine_assoc(pre, TokenV::Arrow(a@), spec_lex(cs.skip(j as int)));
                assert(toks_view(toks@.push(tok)) =~= pre.push(TokenV::Arrow(a@)));
            }
            toks.push(tok);
            i = j;
        } else {
            return Err(ParseError::Text);
        }
    }
    proof {
        assert(cs.skip(n as int) =~= Seq::<char>::empty());
        assert(spec_lex(cs.skip(n as int)) == Some(Seq::<TokenV>::empty()));
        assert(toks_view(toks@) + Seq::<TokenV>::empty() =~= toks_view(toks@));
    }
    Ok(toks)
}

} // verus!
