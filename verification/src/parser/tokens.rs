//! The tokens of a SQL text, and which texts the parser can take.

use vstd::prelude::*;
use sqlparser::dialect::GenericDialect;
use sqlparser::tokenizer::Token;
use sqlparser::tokenizer::Tokenizer;
use crate::planner::expressions::{to_upper, upper};
use crate::text::{numeral_in, parse_usize};
use crate::types::views;

verus! {

/// A token, as far as the parser's limits depend on it.
#[derive(Debug)]
pub enum SqlToken {
    /// A keyword or a name.
    Word {
        /// Its text, without quotes.
        text: String,
        /// Whether it stood in quotes.
        quoted: bool,
    },
    /// A number.
    Number(String),
    /// `=`.
    Eq,
    /// `;`.
    SemiColon,
    /// White space or a comment.
    Space,
    /// Any other token.
    Other,
}

/// The value of a [`SqlToken`].
pub enum TokenView {
    Word { text: Seq<char>, quoted: bool },
    Number(Seq<char>),
    Eq,
    SemiColon,
    Space,
    Other,
}

impl View for SqlToken {
    type V = TokenView;

    open spec fn view(&self) -> TokenView {
        match self {
            SqlToken::Word { text, quoted } => TokenView::Word { text: text@, quoted: *quoted },
            SqlToken::Number(s) => TokenView::Number(s@),
            SqlToken::Eq => TokenView::Eq,
            SqlToken::SemiColon => TokenView::SemiColon,
            SqlToken::Space => TokenView::Space,
            SqlToken::Other => TokenView::Other,
        }
    }
}

/// The tokens of a SQL text, or nothing where it has none.
pub uninterp spec fn tokens_of(sql: Seq<char>) -> Option<Seq<TokenView>>;

/// `Tokenizer::tokenize` with the `GenericDialect`: the tokens of a text, or nothing where it fails.
#[verifier::external_body]
pub(crate) fn read_tokens(sql: &str) -> (r: Option<Vec<SqlToken>>)
    ensures
        match r {
            Some(v) => tokens_of(sql@) == Some(views(v@)),
            None => tokens_of(sql@) is None,
        },
{
    let plain = |t: Token| match t {
        Token::Word(w) => SqlToken::Word { quoted: w.quote_style.is_some(), text: w.value },
        Token::Number(s, _) => SqlToken::Number(s),
        Token::Eq => SqlToken::Eq,
        Token::SemiColon => SqlToken::SemiColon,
        Token::Whitespace(_) => SqlToken::Space,
        _ => SqlToken::Other,
    };
    let tokens = Tokenizer::new(&GenericDialect {}, sql).tokenize().ok()?;
    Some(tokens.into_iter().map(plain).collect())
}

/// The tokens that are not space.
pub open spec fn solid(ts: Seq<TokenView>) -> Seq<TokenView>
    decreases ts.len(),
{
    if ts.len() == 0 {
        Seq::empty()
    } else if ts.last() is Space {
        solid(ts.drop_last())
    } else {
        solid(ts.drop_last()).push(ts.last())
    }
}

/// The token at `i` is this keyword.
pub open spec fn word_at(ts: Seq<TokenView>, i: int, w: Seq<char>) -> bool {
    0 <= i < ts.len() && match ts[i] {
        TokenView::Word { text, quoted } => !quoted && upper(text) == w,
        _ => false,
    }
}

/// The token at `i` is a number that is no integer, or one above `most`.
pub open spec fn odd_number_at(ts: Seq<TokenView>, i: int, most: int) -> bool {
    0 <= i < ts.len() && match ts[i] {
        TokenView::Number(s) => match numeral_in(s, false, 0, usize::MAX as int) {
            Some(n) => n > most,
            None => true,
        },
        _ => false,
    }
}

/// The token at `i` is a name or a keyword.
pub open spec fn name_at(ts: Seq<TokenView>, i: int) -> bool {
    0 <= i < ts.len() && ts[i] is Word
}

/// Before the token `i` a PREPARE statement may have begun.
pub open spec fn prepares_before(ts: Seq<TokenView>, i: int) -> bool {
    exists|k: int| 0 <= k < i && #[trigger] word_at(ts, k, "PREPARE"@)
}

/// A statement may begin with the token `i`: it is the first one, or what stands before it ends a
/// statement, or introduces one inside another.
pub open spec fn begins_at(ts: Seq<TokenView>, i: int) -> bool {
    ||| i == 0
    ||| ts[i - 1] is SemiColon
    ||| word_at(ts, i - 1, "EXPLAIN"@)
    ||| word_at(ts, i - 1, "DESCRIBE"@)
    ||| word_at(ts, i - 1, "ANALYZE"@)
    ||| word_at(ts, i - 1, "VERBOSE"@)
    ||| word_at(ts, i - 2, "FORMAT"@)
    ||| word_at(ts, i - 1, "BEGIN"@)
    ||| word_at(ts, i - 1, "AS"@) && prepares_before(ts, i)
}

/// At the token `i` stands a clause that the parser cannot be trusted with: a REPLACE statement, TOP
/// or AUTO_INCREMENT with an odd number, GRANTED BY or FOR CHANNEL without a plain name.
pub open spec fn trips_at(ts: Seq<TokenView>, i: int) -> bool {
    ||| word_at(ts, i, "REPLACE"@) && begins_at(ts, i)
    ||| word_at(ts, i, "TOP"@) && odd_number_at(ts, i + 1, usize::MAX as int)
    ||| word_at(ts, i, "GRANTED"@) && word_at(ts, i + 1, "BY"@) && !name_at(ts, i + 2)
    ||| word_at(ts, i, "FOR"@) && word_at(ts, i + 1, "CHANNEL"@) && !(name_at(ts, i + 2) && (i + 3
        >= ts.len() || ts[i + 3] is SemiColon))
    ||| word_at(ts, i, "AUTO_INCREMENT"@) && (odd_number_at(ts, i + 1, u32::MAX as int) || (i + 1
        < ts.len() && ts[i + 1] is Eq && odd_number_at(ts, i + 2, u32::MAX as int)))
}

/// The parser can be given these tokens.
pub open spec fn tame(ts: Seq<TokenView>) -> bool {
    forall|i: int| 0 <= i < solid(ts).len() ==> !#[trigger] trips_at(solid(ts), i)
}

/// Whether the token at `i` is this keyword.
fn is_word(ts: &Vec<&SqlToken>, i: usize, w: &str) -> (r: bool)
    ensures
        r == word_at(token_views(ts@), i as int, w@),
{
    if i >= ts.len() {
        return false;
    }
    match ts[i] {
        SqlToken::Word { text, quoted } => {
            if *quoted {
                false
            } else {
                let s = to_upper(text.as_str());
                *s.as_str() == *w
            }
        },
        _ => false,
    }
}

/// The values of some tokens.
pub open spec fn token_views(ts: Seq<&SqlToken>) -> Seq<TokenView> {
    Seq::new(ts.len(), |i: int| ts[i]@)
}

/// Whether the token at `i` is a number that is no integer, or one above `most`.
fn is_odd_number(ts: &Vec<&SqlToken>, i: usize, most: usize) -> (r: bool)
    ensures
        r == odd_number_at(token_views(ts@), i as int, most as int),
{
    if i >= ts.len() {
        return false;
    }
    match ts[i] {
        SqlToken::Number(s) => match parse_usize(s.as_str()) {
            Some(n) => n > most,
            None => true,
        },
        _ => false,
    }
}

/// The tokens that are not space.
fn drop_space(tokens: &Vec<SqlToken>) -> (r: Vec<&SqlToken>)
    ensures
        token_views(r@) == solid(views(tokens@)),
{
    let ghost all = views(tokens@);
    let mut out: Vec<&SqlToken> = Vec::new();
    let mut i: usize = 0;
    proof {
        assert(all.take(0) =~= Seq::empty());
        assert(token_views(out@) =~= Seq::empty());
    }
    while i < tokens.len()
        invariant
            i <= tokens.len(),
            all == views(tokens@),
            token_views(out@) == solid(all.take(i as int)),
        decreases tokens.len() - i,
    {
        let t: &SqlToken = &tokens[i];
        proof {
            assert(all.take(i + 1).drop_last() =~= all.take(i as int));
            assert(all.take(i + 1).last() == t@);
        }
        match t {
            SqlToken::Space => {},
            _ => {
                let ghost before = out@;
                out.push(t);
                proof {
                    assert(token_views(out@) =~= token_views(before).push(t@));
                }
            },
        }
        i = i + 1;
    }
    proof {
        assert(all.take(i as int) =~= all);
    }
    out
}

/// Whether the token at `i` is a name or a keyword.
fn is_name(ts: &Vec<&SqlToken>, i: usize) -> (r: bool)
    ensures
        r == name_at(token_views(ts@), i as int),
{
    i < ts.len() && matches!(ts[i], SqlToken::Word { .. })
}

/// Whether a statement may begin with the token `i`.
fn can_begin(ts: &Vec<&SqlToken>, i: usize, prepared: bool) -> (r: bool)
    requires
        i < ts.len(),
        prepared == prepares_before(token_views(ts@), i as int),
    ensures
        r == begins_at(token_views(ts@), i as int),
{
    if i == 0 {
        return true;
    }
    let ghost all = token_views(ts@);
    let p: usize = i - 1;
    proof {
        assert(all[p as int] == ts[p as int]@);
    }
    let ends = matches!(ts[p], SqlToken::SemiColon);
    let formats = i >= 2 && is_word(ts, i - 2, "FORMAT");
    ends || is_word(ts, p, "EXPLAIN") || is_word(ts, p, "DESCRIBE") || is_word(ts, p, "ANALYZE")
        || is_word(ts, p, "VERBOSE") || formats || is_word(ts, p, "BEGIN") || (is_word(ts, p, "AS")
        && prepared)
}

/// Whether a clause stands at the token `i` that the parser cannot be trusted with.
fn does_trip(ts: &Vec<&SqlToken>, i: usize, prepared: bool) -> (r: bool)
    requires
        i < ts.len(),
        prepared == prepares_before(token_views(ts@), i as int),
    ensures
        r == trips_at(token_views(ts@), i as int),
{
    let ghost all = token_views(ts@);
    let n: usize = ts.len();
    proof {
        assert(i + 1 < n ==> all[i + 1] == ts[i + 1]@);
        assert(i + 3 < n ==> all[i + 3] == ts[i + 3]@);
    }
    if is_word(ts, i, "REPLACE") && can_begin(ts, i, prepared) {
        return true;
    }
    if is_word(ts, i, "TOP") && is_odd_number(ts, i + 1, usize::MAX) {
        return true;
    }
    let last = n - i <= 2;
    if is_word(ts, i, "GRANTED") && is_word(ts, i + 1, "BY") && (last || !is_name(ts, i + 2)) {
        return true;
    }
    let ended = n - i <= 3 || matches!(ts[i + 3], SqlToken::SemiColon);
    if is_word(ts, i, "FOR") && is_word(ts, i + 1, "CHANNEL") && (last || !is_name(ts, i + 2)
        || !ended) {
        return true;
    }
    let equals = n - i > 1 && matches!(ts[i + 1], SqlToken::Eq);
    is_word(ts, i, "AUTO_INCREMENT") && (is_odd_number(ts, i + 1, 0xffff_ffff) || (equals && !last
        && is_odd_number(ts, i + 2, 0xffff_ffff)))
}

/// Whether the parser can be given these tokens.
pub fn is_tame(tokens: &Vec<SqlToken>) -> (r: bool)
    ensures
        r == tame(views(tokens@)),
{
    let ts = drop_space(tokens);
    let ghost all = token_views(ts@);
    let mut prepared = false;
    let mut i: usize = 0;
    while i < ts.len()
        invariant
            i <= ts.len(),
            all == token_views(ts@),
            all == solid(views(tokens@)),
            prepared == prepares_before(all, i as int),
            forall|k: int| 0 <= k < i ==> !#[trigger] trips_at(all, k),
        decreases ts.len() - i,
    {
        if does_trip(&ts, i, prepared) {
            proof {
                assert(trips_at(all, i as int));
                assert(!tame(views(tokens@)));
            }
            return false;
        }
        let prepares = is_word(&ts, i, "PREPARE");
        proof {
            if prepares {
                assert(word_at(all, i as int, "PREPARE"@));
            }
            if prepared {
                let k = choose|k: int| 0 <= k < i && #[trigger] word_at(all, k, "PREPARE"@);
                assert(0 <= k < i + 1);
            }
            if prepares_before(all, i + 1) {
                let k = choose|k: int| 0 <= k < i + 1 && #[trigger] word_at(all, k, "PREPARE"@);
                if k < i {
                    assert(prepares_before(all, i as int));
                }
            }
        }
        prepared = prepared || prepares;
        i = i + 1;
    }
    true
}

} // verus!
