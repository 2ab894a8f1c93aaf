//! From the characters of a command to its tokens.
//!
//! A token is one of the four marks `(`, `)`, `,` and `;`, or a word: a run,
//! as long as it can be, of characters that are neither marks nor spaces.

use vstd::prelude::*;
use crate::text::{is_space, separates};

verus! {

/// A token of a command.
#[derive(Debug, PartialEq, Eq)]
pub enum Token {
    Word(Vec<char>),
    Open,
    Close,
    Comma,
    Semicolon,
}

/// What a [`Token`] means in contracts.
pub enum Lexeme {
    Word(Seq<char>),
    Open,
    Close,
    Comma,
    Semicolon,
}

impl DeepView for Token {
    type V = Lexeme;

    open spec fn deep_view(&self) -> Lexeme {
        match self {
            Token::Word(word) => Lexeme::Word(word@),
            Token::Open => Lexeme::Open,
            Token::Close => Lexeme::Close,
            Token::Comma => Lexeme::Comma,
            Token::Semicolon => Lexeme::Semicolon,
        }
    }
}

impl View for Token {
    type V = Lexeme;

    open spec fn view(&self) -> Lexeme {
        self.deep_view()
    }
}

impl Clone for Token {
    fn clone(&self) -> (copy: Self)
        ensures
            copy@ == self@,
    {
        match self {
            Token::Word(word) => {
                let mut chars: Vec<char> = Vec::new();
                let mut i: usize = 0;
                while i < word.len()
                    invariant
                        i <= word.len(),
                        chars@ == word@.take(i as int),
                    decreases word.len() - i,
                {
                    chars.push(word[i]);
                    i += 1;
                }
                assert(chars@ =~= word@);
                Token::Word(chars)
            },
            Token::Open => Token::Open,
            Token::Close => Token::Close,
            Token::Comma => Token::Comma,
            Token::Semicolon => Token::Semicolon,
        }
    }
}

/// `c` is one of `(`, `)`, `,` and `;`.
pub open spec fn is_mark(c: char) -> bool {
    c == '(' || c == ')' || c == ',' || c == ';'
}

/// The token that the mark `c` stands for.
pub open spec fn mark(c: char) -> Lexeme {
    if c == '(' {
        Lexeme::Open
    } else if c == ')' {
        Lexeme::Close
    } else if c == ',' {
        Lexeme::Comma
    } else {
        Lexeme::Semicolon
    }
}

/// The word that has been read so far, as a token; nothing if no character
/// of a word has been read.
pub open spec fn pending(word: Seq<char>) -> Seq<Lexeme> {
    if word.len() > 0 {
        seq![Lexeme::Word(word)]
    } else {
        Seq::empty()
    }
}

/// The tokens of `rest`, read after the characters `word` of a word that may
/// go on in `rest`.
pub open spec fn scan(rest: Seq<char>, word: Seq<char>) -> Seq<Lexeme>
    decreases rest.len(),
{
    if rest.len() == 0 {
        pending(word)
    } else if is_space(rest[0]) {
        pending(word) + scan(rest.drop_first(), Seq::empty())
    } else if is_mark(rest[0]) {
        pending(word) + seq![mark(rest[0])] + scan(rest.drop_first(), Seq::empty())
    } else {
        scan(rest.drop_first(), word.push(rest[0]))
    }
}

/// The tokens of `text`.
pub open spec fn lex(text: Seq<char>) -> Seq<Lexeme> {
    scan(text, Seq::empty())
}

/// The tokens of `text`.
pub fn tokenize(text: &Vec<char>) -> (tokens: Vec<Token>)
    ensures
        tokens.deep_view() == lex(text@),
{
    let mut tokens: Vec<Token> = Vec::new();
    let mut word: Vec<char> = Vec::new();
    let mut i: usize = 0;
    assert(text@.skip(0) =~= text@);
    assert(tokens.deep_view() + scan(text@, word@) =~= lex(text@));
    while i < text.len()
        invariant
            i <= text.len(),
            lex(text@) == tokens.deep_view() + scan(text@.skip(i as int), word@),
        decreases text.len() - i,
    {
        let c = text[i];
        let ghost rest = text@.skip(i as int);
        let ghost before = tokens.deep_view();
        let ghost read = word@;
        assert(rest[0] == c);
        assert(rest.drop_first() =~= text@.skip(i + 1));
        if separates(c) || c == '(' || c == ')' || c == ',' || c == ';' {
            if word.len() > 0 {
                tokens.push(Token::Word(word));
                word = Vec::new();
            }
            assert(tokens.deep_view() =~= before + pending(read));
            let ghost flushed = tokens.deep_view();
            if c == '(' {
                tokens.push(Token::Open);
            } else if c == ')' {
                tokens.push(Token::Close);
            } else if c == ',' {
                tokens.push(Token::Comma);
            } else if c == ';' {
                tokens.push(Token::Semicolon);
            }
            assert(tokens.deep_view() =~= flushed + (if is_mark(c) {
                seq![mark(c)]
            } else {
                Seq::empty()
            }));
            assert(word@ =~= Seq::empty());
            assert(lex(text@) =~= tokens.deep_view() + scan(text@.skip(i + 1), word@));
        } else {
            word.push(c);
        }
        i += 1;
    }
    let ghost before = tokens.deep_view();
    let ghost read = word@;
    if word.len() > 0 {
        tokens.push(Token::Word(word));
    }
    assert(tokens.deep_view() =~= before + pending(read));
    tokens
}

/// `c` can stand in a word: it is neither a space nor a mark.
pub open spec fn in_word(c: char) -> bool {
    !is_space(c) && !is_mark(c)
}

/// The token is a mark, or a word that is not empty and holds neither a
/// space nor a mark.
pub open spec fn is_clean(token: Lexeme) -> bool {
    match token {
        Lexeme::Word(word) => word.len() > 0 && forall|i: int| 0 <= i < word.len() ==> in_word(#[trigger] word[i]),
        _ => true,
    }
}

/// Every token that is scanned is clean, where the word that was being
/// read holds neither a space nor a mark.
pub proof fn lemma_scan_clean(rest: Seq<char>, word: Seq<char>)
    requires
        forall|i: int| 0 <= i < word.len() ==> in_word(#[trigger] word[i]),
    ensures
        forall|k: int| 0 <= k < scan(rest, word).len() ==> is_clean(#[trigger] scan(rest, word)[k]),
    decreases rest.len(),
{
    let tokens = scan(rest, word);
    let flushed = pending(word);
    assert forall|k: int| 0 <= k < flushed.len() implies is_clean(#[trigger] flushed[k]) by {
        assert(flushed[k] == Lexeme::Word(word));
    }
    if rest.len() == 0 {
        assert(tokens == flushed);
    } else if is_space(rest[0]) || is_mark(rest[0]) {
        let tail = scan(rest.drop_first(), Seq::empty());
        let head = if is_space(rest[0]) {
            flushed
        } else {
            flushed + seq![mark(rest[0])]
        };
        lemma_scan_clean(rest.drop_first(), Seq::empty());
        assert(tokens == head + tail);
        assert forall|k: int| 0 <= k < tokens.len() implies is_clean(#[trigger] tokens[k]) by {
            if k < flushed.len() {
                assert(tokens[k] == flushed[k]);
            } else if k < head.len() {
                assert(tokens[k] == mark(rest[0]));
            } else {
                assert(tokens[k] == tail[k - head.len()]);
            }
        }
    } else {
        let longer = word.push(rest[0]);
        assert forall|i: int| 0 <= i < longer.len() implies in_word(#[trigger] longer[i]) by {
            if i < word.len() {
                assert(longer[i] == word[i]);
            }
        }
        lemma_scan_clean(rest.drop_first(), longer);
        assert(tokens == scan(rest.drop_first(), longer));
    }
}

/// No word of a command is empty, and none holds a space or a mark.
pub proof fn lemma_lex_clean(text: Seq<char>)
    ensures
        forall|k: int| 0 <= k < lex(text).len() ==> is_clean(#[trigger] lex(text)[k]),
{
    lemma_scan_clean(text, Seq::empty());
}

/// Text without spaces and marks is one word; text with nothing but spaces
/// has no token.
pub proof fn lemma_lex_word(text: Seq<char>)
    ensures
        (text.len() > 0 && forall|i: int| 0 <= i < text.len() ==> in_word(#[trigger] text[i])) ==> lex(text)
            == seq![Lexeme::Word(text)],
        (forall|i: int| 0 <= i < text.len() ==> is_space(#[trigger] text[i])) ==> lex(text) == Seq::<
            Lexeme,
        >::empty(),
{
    if forall|i: int| 0 <= i < text.len() ==> in_word(#[trigger] text[i]) {
        lemma_scan_word(text, Seq::empty());
        assert(Seq::<char>::empty() + text =~= text);
    }
    if forall|i: int| 0 <= i < text.len() ==> is_space(#[trigger] text[i]) {
        lemma_scan_spaces(text);
    }
}

/// Characters of a word go on the word that is being read.
pub proof fn lemma_scan_word(rest: Seq<char>, word: Seq<char>)
    requires
        forall|i: int| 0 <= i < rest.len() ==> in_word(#[trigger] rest[i]),
    ensures
        scan(rest, word) == pending(word + rest),
    decreases rest.len(),
{
    if rest.len() == 0 {
        assert(word + rest =~= word);
    } else {
        assert forall|i: int| 0 <= i < rest.drop_first().len() implies in_word(#[trigger] rest.drop_first()[i]) by {
            assert(rest.drop_first()[i] == rest[i + 1]);
        }
        lemma_scan_word(rest.drop_first(), word.push(rest[0]));
        assert(word.push(rest[0]) + rest.drop_first() =~= word + rest);
    }
}

/// Spaces make no token.
pub proof fn lemma_scan_spaces(rest: Seq<char>)
    requires
        forall|i: int| 0 <= i < rest.len() ==> is_space(#[trigger] rest[i]),
    ensures
        scan(rest, Seq::empty()) == Seq::<Lexeme>::empty(),
    decreases rest.len(),
{
    if rest.len() > 0 {
        assert forall|i: int| 0 <= i < rest.drop_first().len() implies is_space(
            #[trigger] rest.drop_first()[i],
        ) by {
            assert(rest.drop_first()[i] == rest[i + 1]);
        }
        lemma_scan_spaces(rest.drop_first());
        assert(pending(Seq::<char>::empty()) + Seq::<Lexeme>::empty() =~= Seq::<Lexeme>::empty());
    }
}

} // verus!
