//! Tokenizing: from a line of text and the dictionary to a sequence of
//! tokens, installing the definitions that the line holds.

use vstd::prelude::*;
use crate::dictionary::Dictionary;
use crate::model::{
    Definition, DefinitionView, ErrorView, ForthError, Token, TokenView, token_views,
};
use crate::text::{
    join, joined, keyword, keyword_of, number_value, parse_number, split_words, texts, words,
};

verus! {

/// What tokenizing leaves: the dictionary, with the definitions installed
/// before it ended, and the tokens or the error.
pub struct LexOutcome {
    pub dict: Map<Seq<char>, DefinitionView>,
    pub result: Result<Seq<TokenView>, ErrorView>,
}

/// The token that a word outside a definition resolves to: a number if it
/// writes one, else the definition of that name, else a keyword.
pub open spec fn resolve(dict: Map<Seq<char>, DefinitionView>, word: Seq<char>) -> Option<
    TokenView,
> {
    if number_value(word) is Some {
        Some(TokenView::Number(number_value(word)->Some_0))
    } else if dict.contains_key(word) {
        Some(TokenView::Op(dict[word]))
    } else if keyword_of(word) is Some {
        Some(TokenView::Keyword(keyword_of(word)->Some_0))
    } else {
        None
    }
}

/// The dictionary after a definition closes on the words gathered since
/// its `:`. The first is the name, the others, joined by single spaces,
/// the body. With no word gathered there is no name, and nothing changes.
pub open spec fn define(dict: Map<Seq<char>, DefinitionView>, gathered: Seq<Seq<char>>) -> Map<
    Seq<char>,
    DefinitionView,
> {
    if gathered.len() == 0 {
        dict
    } else {
        dict.insert(
            gathered[0],
            DefinitionView::Tokens(joined(gathered.skip(1), seq![' '])),
        )
    }
}

/// Tokenizing the words that are left of a line. `tokens` are those made
/// so far; `gathered` holds the words of the definition that is open, or
/// is `None` outside a definition. A definition still open at the end of
/// the line is dropped.
pub open spec fn lex_words(
    dict: Map<Seq<char>, DefinitionView>,
    tokens: Seq<TokenView>,
    gathered: Option<Seq<Seq<char>>>,
    rest: Seq<Seq<char>>,
) -> LexOutcome
    decreases rest.len(),
{
    if rest.len() == 0 {
        LexOutcome { dict, result: Ok(tokens) }
    } else {
        let word = rest[0];
        let after = rest.drop_first();
        match gathered {
            Some(seen) => if word == seq![';'] {
                lex_words(define(dict, seen), tokens, None, after)
            } else {
                lex_words(dict, tokens, Some(seen.push(word)), after)
            },
            None => match resolve(dict, word) {
                Some(token) => lex_words(dict, tokens.push(token), None, after),
                None => if word == seq![':'] {
                    lex_words(dict, tokens, Some(Seq::empty()), after)
                } else {
                    LexOutcome { dict, result: Err(ErrorView::WordNotDefined(word)) }
                },
            },
        }
    }
}

/// Tokenizing a whole line against a dictionary.
pub open spec fn lex_line(dict: Map<Seq<char>, DefinitionView>, input: Seq<char>) -> LexOutcome {
    lex_words(dict, Seq::empty(), None, words(input))
}

/// Whether the word is the single character `c`.
fn is_mark(word: &String, c: char) -> (b: bool)
    ensures
        b == (word@ == seq![c]),
{
    let s = word.as_str();
    if s.unicode_len() == 1 {
        let first = s.get_char(0);
        assert(first == c ==> word@ =~= seq![c]);
        first == c
    } else {
        false
    }
}

/// The token that the word resolves to outside a definition, if any.
fn resolve_word(dict: &Dictionary, word: &String) -> (token: Option<Token>)
    ensures
        match token {
            Some(t) => resolve(dict@, word@) == Some(t@),
            None => resolve(dict@, word@) is None,
        },
{
    if let Some(n) = parse_number(word.as_str()) {
        return Some(Token::Number(n));
    }
    if let Some(def) = dict.get(word) {
        return Some(Token::Op(def));
    }
    if let Some(kw) = keyword(word.as_str()) {
        return Some(Token::Keyword(kw));
    }
    None
}

/// Closes a definition on the words gathered since its `:`.
fn close_definition(dict: &mut Dictionary, gathered: Vec<String>)
    ensures
        final(dict)@ == define(old(dict)@, texts(gathered@)),
        old(dict).well_formed() ==> final(dict).well_formed(),
{
    let mut gathered = gathered;
    if gathered.len() > 0 {
        let ghost all = texts(gathered@);
        let name = gathered.remove(0);
        proof {
            reveal_strlit(" ");
            assert(" "@ =~= seq![' ']);
            assert(texts(gathered@) =~= all.skip(1));
        }
        let body = join(&gathered, " ");
        dict.insert(name, Definition::Tokens(body));
    }
}

/// Tokenizes a line. Words are resolved from left to right against the
/// dictionary as it stands when each is reached, so a definition can be
/// used later on the line that holds it. Definitions closed before an
/// unknown word stay installed.
pub fn tokenize(dict: &mut Dictionary, input: &str) -> (r: Result<Vec<Token>, ForthError>)
    ensures
        final(dict)@ == lex_line(old(dict)@, input@).dict,
        old(dict).well_formed() ==> final(dict).well_formed(),
        match r {
            Ok(tokens) => lex_line(old(dict)@, input@).result == Ok::<
                Seq<TokenView>,
                ErrorView,
            >(token_views(tokens@)),
            Err(e) => lex_line(old(dict)@, input@).result == Err::<Seq<TokenView>, ErrorView>(e@),
        },
{
    let line = split_words(input);
    let ghost all = texts(line@);
    let ghost goal = lex_line(old(dict)@, input@);
    let mut tokens: Vec<Token> = Vec::new();
    let mut defining = false;
    let mut gathered: Vec<String> = Vec::new();
    let mut i: usize = 0;
    proof {
        assert(all.skip(0) =~= all);
        assert(token_views(tokens@) =~= Seq::<TokenView>::empty());
    }
    while i < line.len()
        invariant
            i <= line@.len(),
            all == texts(line@),
            old(dict).well_formed() ==> dict.well_formed(),
            goal == lex_line(old(dict)@, input@),
            goal == lex_words(
                dict@,
                token_views(tokens@),
                if defining {
                    Some(texts(gathered@))
                } else {
                    None
                },
                all.skip(i as int),
            ),
        decreases line@.len() - i,
    {
        let word = line[i].clone();
        proof {
            assert(all.skip(i as int).drop_first() =~= all.skip(i + 1));
        }
        if defining {
            if is_mark(&word, ';') {
                close_definition(dict, gathered);
                gathered = Vec::new();
                defining = false;
            } else {
                let ghost seen = texts(gathered@);
                gathered.push(word);
                assert(texts(gathered@) =~= seen.push(word@));
            }
        } else {
            match resolve_word(dict, &word) {
                Some(token) => {
                    let ghost made = token_views(tokens@);
                    tokens.push(token);
                    assert(token_views(tokens@) =~= made.push(token@));
                },
                None => {
                    if is_mark(&word, ':') {
                        defining = true;
                        gathered = Vec::new();
                        assert(texts(gathered@) =~= Seq::<Seq<char>>::empty());
                    } else {
                        return Err(ForthError::WordNotDefined(word));
                    }
                },
            }
        }
        i += 1;
    }
    Ok(tokens)
}

} // verus!
