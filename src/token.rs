//! Memorable tokens made of capitalized dictionary words.
use vstd::prelude::*;

verus! {

/// What a token is for; each kind has its own word count and word list.
pub enum TokenType {
    Session,
    URL,
    Extension,
}

/// The two word lists that tokens draw from.
pub enum WordList {
    Short1,
    Short2,
}

/// Most words that one draw may ask for: the size of each word list.
pub const WORDS_PER_LIST: usize = 1296;

/// Number of words in a token of the given kind.
pub open spec fn word_count(t: TokenType) -> nat {
    match t {
        TokenType::Session => 4,
        TokenType::URL => 3,
        TokenType::Extension => 1,
    }
}

/// Fewest characters in one word of either list.
pub open spec fn min_word_len() -> nat {
    3
}

/// Most characters in one word of the list.
pub open spec fn max_word_len(list: WordList) -> nat {
    match list {
        WordList::Short1 => 5,
        WordList::Short2 => 10,
    }
}

/// The list that tokens of the given kind draw from.
pub open spec fn list_of(t: TokenType) -> WordList {
    match t {
        TokenType::Session => WordList::Short2,
        _ => WordList::Short1,
    }
}

pub open spec fn is_upper(c: char) -> bool {
    'A' <= c <= 'Z'
}

/// A capitalized word of at least three and at most `max` characters.
pub open spec fn is_word(w: Seq<char>, max: nat) -> bool {
    min_word_len() <= w.len() <= max && is_upper(w[0])
}

/// Every one of `ws` is a capitalized word of at most `max` characters.
pub open spec fn all_words(ws: Seq<Seq<char>>, max: nat) -> bool {
    forall|i: int| 0 <= i < ws.len() ==> is_word(#[trigger] ws[i], max)
}

/// `s` is `n` capitalized words of at most `max` characters each, joined
/// with no separator.
pub open spec fn joined_words(s: Seq<char>, n: nat, max: nat) -> bool {
    exists|ws: Seq<Seq<char>>| ws.len() == n && all_words(ws, max) && s == #[trigger] ws.flatten()
}

/// A word that an extension appends.
pub open spec fn is_extension_word(w: Seq<char>) -> bool {
    is_word(w, max_word_len(WordList::Short1))
}

/// `s` is a token of the given kind: its kind's number of capitalized words
/// of its kind's list, joined with no separator.
pub open spec fn shaped(t: TokenType, s: Seq<char>) -> bool {
    &&& joined_words(s, word_count(t), max_word_len(list_of(t)))
    &&& min_word_len() * word_count(t) <= s.len() <= max_word_len(list_of(t)) * word_count(t)
    &&& is_upper(s[0])
}

/// Relies on xkpass::generate_password: it draws `number` distinct words
/// of the chosen list, capitalizes each (the lists hold 1296 lower-case words,
/// of 3 to 5 characters in the first list and 3 to 10 in the second), and
/// joins them with the empty separator.
#[verifier::external_body]
fn draw_words(number: usize, list: &WordList) -> (r: String)
    requires
        1 <= number <= WORDS_PER_LIST,
    ensures
        joined_words(r@, number as nat, max_word_len(*list)),
        min_word_len() * number <= r@.len() <= max_word_len(*list) * number,
        is_upper(r@[0]),
{
    let list = match list {
        WordList::Short1 => xkpass::List::Short1,
        WordList::Short2 => xkpass::List::Short2,
    };
    xkpass::generate_password(xkpass::Args {
        number,
        separator: String::new(),
        list,
        case: xkpass::Case::Capitalized,
    })
}

/// Draws a fresh token of the given kind: four words of the second list for
/// a session, which acts as a bearer credential; three words of the first
/// list for a URL; one word of the first list for an extension.
pub fn generate(t_type: TokenType) -> (r: String)
    ensures
        shaped(t_type, r@),
{
    match t_type {
        TokenType::Session => draw_words(4, &WordList::Short2),
        TokenType::URL => draw_words(3, &WordList::Short1),
        TokenType::Extension => draw_words(1, &WordList::Short1),
    }
}

/// Appends one freshly drawn extension word to `existing`.
pub fn extend(existing: &str) -> (r: String)
    ensures
        exists|w: Seq<char>| is_extension_word(w) && r@ == existing@ + w,
        r@.len() >= existing@.len() + min_word_len(),
        r@.subrange(0, existing@.len() as int) == existing@,
{
    let word = generate(TokenType::Extension);
    let r = existing.to_owned().concat(word.as_str());
    proof {
        let ws = choose|ws: Seq<Seq<char>>|
            ws.len() == 1 && all_words(ws, 5) && word@ == #[trigger] ws.flatten();
        ws.lemma_flatten_singleton();
        assert(is_extension_word(ws[0]));
        assert(r@ == existing@ + ws[0]);
    }
    assert(r@.subrange(0, existing@.len() as int) =~= existing@);
    r
}

} // verus!
