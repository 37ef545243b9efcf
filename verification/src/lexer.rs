use crate::color::sp_hex_color;
use crate::color::Color;
use crate::color::ColorInt;
use std::collections::VecDeque;
use vstd::prelude::*;
use vstd::string::StrSliceExecFns;
use vstd::string::StringExecFns;

verus! {

/// A token of the language, as produced for one statement chunk.
#[derive(Debug)]
pub enum Token {
    Let,
    Include,
    HexColor(Color),
    Identifier(String),
    Int(ColorInt),
    Assign,
    LeftPare,
    RightPare,
    Comma,
}

/// The mathematical value of a token.
pub enum TokenV {
    Let,
    Include,
    HexColor(Color),
    Identifier(Seq<char>),
    Int(ColorInt),
    Assign,
    LeftPare,
    RightPare,
    Comma,
}

impl View for Token {
    type V = TokenV;

    open spec fn view(&self) -> TokenV {
        match self {
            Token::Let => TokenV::Let,
            Token::Include => TokenV::Include,
            Token::HexColor(c) => TokenV::HexColor(*c),
            Token::Identifier(s) => TokenV::Identifier(s@),
            Token::Int(v) => TokenV::Int(*v),
            Token::Assign => TokenV::Assign,
            Token::LeftPare => TokenV::LeftPare,
            Token::RightPare => TokenV::RightPare,
            Token::Comma => TokenV::Comma,
        }
    }
}

impl DeepView for Token {
    type V = TokenV;

    open spec fn deep_view(&self) -> TokenV {
        self@
    }
}

impl PartialEq for Token {
    /// Two tokens are equal when they have the same kind and payload.
    fn eq(&self, other: &Token) -> (r: bool) {
        proof {
            lemma_token_view_eq(self, other);
        }
        match self {
            Token::Let => matches!(other, Token::Let),
            Token::Include => matches!(other, Token::Include),
            Token::HexColor(a) => match other {
                Token::HexColor(b) => *a == *b,
                _ => false,
            },
            Token::Identifier(a) => match other {
                Token::Identifier(b) => *a == *b,
                _ => false,
            },
            Token::Int(a) => match other {
                Token::Int(b) => *a == *b,
                _ => false,
            },
            Token::Assign => matches!(other, Token::Assign),
            Token::LeftPare => matches!(other, Token::LeftPare),
            Token::RightPare => matches!(other, Token::RightPare),
            Token::Comma => matches!(other, Token::Comma),
        }
    }
}


/// Case analysis connecting token value equality to the shapes of the two
/// tokens; the nested matches force the prover through every pair.
proof fn lemma_token_view_eq(a: &Token, b: &Token)
    ensures
        (a@ == b@) <==> (match (a, b) {
            (Token::Let, Token::Let) => true,
            (Token::Include, Token::Include) => true,
            (Token::HexColor(x), Token::HexColor(y)) => x == y,
            (Token::Identifier(x), Token::Identifier(y)) => x@ == y@,
            (Token::Int(x), Token::Int(y)) => x == y,
            (Token::Assign, Token::Assign) => true,
            (Token::LeftPare, Token::LeftPare) => true,
            (Token::RightPare, Token::RightPare) => true,
            (Token::Comma, Token::Comma) => true,
            _ => false,
        }),
{
    match a {
        Token::Let => {
            match b {
                Token::Let => {},
                Token::Include => {},
                Token::HexColor(_) => {},
                Token::Identifier(_) => {},
                Token::Int(_) => {},
                Token::Assign => {},
                Token::LeftPare => {},
                Token::RightPare => {},
                Token::Comma => {},
            }
        },
        Token::Include => {
            match b {
                Token::Let => {},
                Token::Include => {},
                Token::HexColor(_) => {},
                Token::Identifier(_) => {},
                Token::Int(_) => {},
                Token::Assign => {},
                Token::LeftPare => {},
                Token::RightPare => {},
                Token::Comma => {},
            }
        },
        Token::HexColor(_) => {
            match b {
                Token::Let => {},
                Token::Include => {},
                Token::HexColor(_) => {},
                Token::Identifier(_) => {},
                Token::Int(_) => {},
                Token::Assign => {},
                Token::LeftPare => {},
                Token::RightPare => {},
                Token::Comma => {},
            }
        },
        Token::Identifier(_) => {
            match b {
                Token::Let => {},
                Token::Include => {},
                Token::HexColor(_) => {},
                Token::Identifier(_) => {},
                Token::Int(_) => {},
                Token::Assign => {},
                Token::LeftPare => {},
                Token::RightPare => {},
                Token::Comma => {},
            }
        },
        Token::Int(_) => {
            match b {
                Token::Let => {},
                Token::Include => {},
                Token::HexColor(_) => {},
                Token::Identifier(_) => {},
                Token::Int(_) => {},
                Token::Assign => {},
                Token::LeftPare => {},
                Token::RightPare => {},
                Token::Comma => {},
            }
        },
        Token::Assign => {
            match b {
                Token::Let => {},
                Token::Include => {},
                Token::HexColor(_) => {},
                Token::Identifier(_) => {},
                Token::Int(_) => {},
                Token::Assign => {},
                Token::LeftPare => {},
                Token::RightPare => {},
                Token::Comma => {},
            }
        },
        Token::LeftPare => {
            match b {
                Token::Let => {},
                Token::Include => {},
                Token::HexColor(_) => {},
                Token::Identifier(_) => {},
                Token::Int(_) => {},
                Token::Assign => {},
                Token::LeftPare => {},
                Token::RightPare => {},
                Token::Comma => {},
            }
        },
        Token::RightPare => {
            match b {
                Token::Let => {},
                Token::Include => {},
                Token::HexColor(_) => {},
                Token::Identifier(_) => {},
                Token::Int(_) => {},
                Token::Assign => {},
                Token::LeftPare => {},
                Token::RightPare => {},
                Token::Comma => {},
            }
        },
        Token::Comma => {
            match b {
                Token::Let => {},
                Token::Include => {},
                Token::HexColor(_) => {},
                Token::Identifier(_) => {},
                Token::Int(_) => {},
                Token::Assign => {},
                Token::LeftPare => {},
                Token::RightPare => {},
                Token::Comma => {},
            }
        },
    }
}


impl vstd::std_specs::cmp::PartialEqSpecImpl for Token {
    open spec fn obeys_eq_spec() -> bool {
        true
    }

    open spec fn eq_spec(&self, other: &Token) -> bool {
        self@ == other@
    }
}

/// The one way lexing fails: a malformed hex color literal.
#[derive(Debug, PartialEq, Eq, Structural, Clone, Copy)]
pub enum LexFault {
    Value,
}

impl LexFault {
    /// The fault message shown to the user.
    pub fn msg(&self) -> (r: String)
        ensures
            r@ == "LexError: value error"@,
    {
        String::from_str("LexError: value error")
    }
}

/// Whitespace, skipped between tokens.
pub open spec fn sp_is_skip_char(c: char) -> bool {
    c == ' ' || c == '\t' || c == '\n'
}

/// Characters that are tokens of their own and so also end a word.
pub open spec fn sp_is_token_char(c: char) -> bool {
    c == '#' || c == '=' || c == '(' || c == ')' || c == ','
}

pub open spec fn sp_is_boundary(c: char) -> bool {
    sp_is_skip_char(c) || sp_is_token_char(c)
}

/// The text with `//` line comments removed. While inside a comment,
/// characters up to (but not including) the next newline are dropped.
pub open spec fn sp_strip(s: Seq<char>, in_comment: bool) -> Seq<char>
    decreases s.len(), (if in_comment {
        1int
    } else {
        0int
    }),
{
    if s.len() == 0 {
        Seq::<char>::empty()
    } else if in_comment {
        if s[0] == '\n' {
            sp_strip(s, false)
        } else {
            sp_strip(s.skip(1), true)
        }
    } else if s.len() >= 2 && s[0] == '/' && s[1] == '/' {
        sp_strip(s.skip(2), true)
    } else {
        seq![s[0]] + sp_strip(s.skip(1), false)
    }
}

pub open spec fn sp_strip_comments(s: Seq<char>) -> Seq<char> {
    sp_strip(s, false)
}

/// The first index at or after `i` that ends a word: the index of the first
/// boundary character, or the length of the text.
pub open spec fn sp_word_end(s: Seq<char>, i: int) -> int
    decreases s.len() - i,
{
    if i >= s.len() {
        i
    } else if sp_is_boundary(s[i]) {
        i
    } else {
        sp_word_end(s, i + 1)
    }
}

pub proof fn lemma_sp_word_end_bounds(s: Seq<char>, i: int)
    requires
        0 <= i <= s.len(),
    ensures
        i <= sp_word_end(s, i) <= s.len(),
    decreases s.len() - i,
{
    if i < s.len() && !sp_is_boundary(s[i]) {
        lemma_sp_word_end_bounds(s, i + 1);
    }
}

pub open spec fn sp_is_digit(c: char) -> bool {
    '0' as u32 <= c as u32 && c as u32 <= '9' as u32
}

pub open spec fn sp_all_digits(w: Seq<char>) -> bool {
    forall|i: int| 0 <= i < w.len() ==> sp_is_digit(#[trigger] w[i])
}

/// The numeric value of a sequence of decimal digits.
pub open spec fn sp_dec_value(w: Seq<char>) -> int
    decreases w.len(),
{
    if w.len() == 0 {
        0
    } else {
        sp_dec_value(w.drop_last()) * 10 + (w.last() as u32 - '0' as u32)
    }
}

/// The integer token value of a word: digits only, in channel range.
pub open spec fn sp_word_int(w: Seq<char>) -> Option<u8> {
    if w.len() > 0 && sp_all_digits(w) && sp_dec_value(w) <= 255 {
        Some(sp_dec_value(w) as u8)
    } else {
        None
    }
}

/// The token a word stands for: the two keywords, an integer in channel
/// range, or an identifier.
pub open spec fn sp_word_token(w: Seq<char>) -> TokenV {
    if w == "let"@ {
        TokenV::Let
    } else if w == "include"@ {
        TokenV::Include
    } else {
        match sp_word_int(w) {
            Some(v) => TokenV::Int(v),
            None => TokenV::Identifier(w),
        }
    }
}

/// Puts one token in front of a lexing result.
pub open spec fn sp_cons(t: TokenV, r: Result<Seq<TokenV>, LexFault>) -> Result<
    Seq<TokenV>,
    LexFault,
> {
    match r {
        Ok(ts) => Ok(seq![t] + ts),
        Err(e) => Err(e),
    }
}

/// The token sequence of comment-free text. Whitespace separates tokens;
/// punctuation characters are single tokens; `#` takes exactly six hex
/// digits as a color literal and anything short of that is the one lex
/// fault; every other run of characters is a word.
pub open spec fn sp_lex(s: Seq<char>) -> Result<Seq<TokenV>, LexFault>
    decreases s.len(),
{
    if s.len() == 0 {
        Ok(Seq::<TokenV>::empty())
    } else if sp_is_skip_char(s[0]) {
        sp_lex(s.skip(1))
    } else if s[0] == '=' {
        sp_cons(TokenV::Assign, sp_lex(s.skip(1)))
    } else if s[0] == '(' {
        sp_cons(TokenV::LeftPare, sp_lex(s.skip(1)))
    } else if s[0] == ')' {
        sp_cons(TokenV::RightPare, sp_lex(s.skip(1)))
    } else if s[0] == ',' {
        sp_cons(TokenV::Comma, sp_lex(s.skip(1)))
    } else if s[0] == '#' {
        if s.len() < 7 {
            Err(LexFault::Value)
        } else {
            match sp_hex_color(s.subrange(1, 7)) {
                Some(color) => sp_cons(TokenV::HexColor(color), sp_lex(s.skip(7))),
                None => Err(LexFault::Value),
            }
        }
    } else {
        let n = sp_word_end(s, 1);
        // the word end always lies in this range (`lemma_sp_word_end_bounds`);
        // the guard only serves the termination check
        if 1 <= n <= s.len() {
            sp_cons(sp_word_token(s.take(n)), sp_lex(s.skip(n)))
        } else {
            Err(LexFault::Value)
        }
    }
}

/// Appending to the tokens already produced commutes with putting a token
/// in front of the rest.
pub open spec fn sp_join(acc: Seq<TokenV>, r: Result<Seq<TokenV>, LexFault>) -> Result<
    Seq<TokenV>,
    LexFault,
> {
    match r {
        Ok(ts) => Ok(acc + ts),
        Err(e) => Err(e),
    }
}

proof fn lemma_sp_join_cons(acc: Seq<TokenV>, t: TokenV, r: Result<Seq<TokenV>, LexFault>)
    ensures
        sp_join(acc, sp_cons(t, r)) == sp_join(acc.push(t), r),
{
    match r {
        Ok(ts) => {
            assert(acc + (seq![t] + ts) =~= acc.push(t) + ts);
        },
        Err(_) => {},
    }
}

/// Removes and returns up to `length` items from the front.
#[verifier::loop_isolation(false)]
fn pops_front<T>(iter: &mut VecDeque<T>, length: usize) -> (r: Vec<T>)
    ensures
        old(iter)@.len() >= length ==> {
            &&& r@ == old(iter)@.take(length as int)
            &&& final(iter)@ == old(iter)@.skip(length as int)
        },
        old(iter)@.len() < length ==> {
            &&& r@ == old(iter)@
            &&& final(iter)@.len() == 0
        },
{
    let ghost orig = iter@;
    let mut ret_vec: Vec<T> = Vec::with_capacity(length);
    let mut i: usize = 0;
    proof {
        assert(ret_vec@ =~= orig.take(0));
        assert(iter@ =~= orig.skip(0));
    }
    while i < length
        invariant
            i <= length,
            i <= orig.len(),
            sp_pops_state(ret_vec@, iter@, orig, i as int),
        decreases length - i,
    {
        let item = iter.pop_front();
        match item {
            Some(item) => {
                ret_vec.push(item);
                proof {
                    assert(ret_vec@ =~= orig.take(i + 1));
                    assert(iter@ =~= orig.skip(i + 1));
                }
            },
            None => {
                proof {
                    assert(iter@.len() == 0);
                    assert(orig.len() == i);
                    assert(ret_vec@ =~= orig);
                }
                return ret_vec;
            },
        }
        i = i + 1;
    }
    proof {
        if orig.len() >= length {
            assert(ret_vec@ =~= orig.take(length as int));
        }
    }
    ret_vec
}

/// The state of `pops_front` part way through: `i` items moved so far.
pub open spec fn sp_pops_state<T>(taken: Seq<T>, rest: Seq<T>, orig: Seq<T>, i: int) -> bool {
    &&& taken == orig.take(i)
    &&& rest == orig.skip(i)
}

fn is_token_char(ch: char) -> (r: bool)
    ensures
        r == sp_is_token_char(ch),
{
    if ch == '#' {
        return true;
    }
    if ch == '=' {
        return true;
    }
    if ch == '(' {
        return true;
    }
    if ch == ')' {
        return true;
    }
    if ch == ',' {
        return true;
    }
    false
}

fn is_skip_char(ch: char) -> (r: bool)
    ensures
        r == sp_is_skip_char(ch),
{
    if ch == ' ' {
        return true;
    }
    if ch == '\t' {
        return true;
    }
    if ch == '\n' {
        return true;
    }
    false
}

/// Strips `//` line comments, consuming the input. A `/` not immediately
/// followed by another `/` is ordinary text.
fn remove_comment_line(chars: &mut VecDeque<char>) -> (r: VecDeque<char>)
    ensures
        r@ == sp_strip_comments(old(chars)@),
        final(chars)@.len() == 0,
{
    let ghost orig = chars@;
    let mut out: VecDeque<char> = VecDeque::new();
    let mut in_comment = false;
    proof {
        assert(out@ + sp_strip(chars@, false) =~= sp_strip(orig, false));
    }
    loop
        invariant
            sp_strip(orig, false) == out@ + sp_strip(chars@, in_comment),
        ensures
            chars@.len() == 0,
            sp_strip(orig, false) == out@ + sp_strip(chars@, in_comment),
        decreases chars@.len(),
    {
        if chars.len() == 0 {
            break ;
        }
        let ghost before = chars@;
        let ghost out_before = out@;
        if in_comment {
            let c = chars.pop_front();
            match c {
                Some(c) => {
                    proof {
                        assert(chars@ =~= before.skip(1));
                    }
                    if c == '\n' {
                        out.push_back('\n');
                        in_comment = false;
                        proof {
                            assert(sp_strip(before, true) == sp_strip(before, false));
                            assert(sp_strip(before, false) =~= seq!['\n'] + sp_strip(
                                before.skip(1),
                                false,
                            ));
                            assert(out@ + sp_strip(chars@, false) =~= out_before + sp_strip(
                                before,
                                true,
                            ));
                        }
                    } else {
                        proof {
                            assert(sp_strip(before, true) == sp_strip(before.skip(1), true));
                        }
                    }
                },
                None => {},
            }
        } else {
            let two_slashes = if chars[0] == '/' && chars.len() >= 2 {
                chars[1] == '/'
            } else {
                false
            };
            if two_slashes {
                let _ = chars.pop_front();
                let _ = chars.pop_front();
                in_comment = true;
                proof {
                    assert(chars@ =~= before.skip(2));
                    assert(sp_strip(before, false) == sp_strip(before.skip(2), true));
                }
            } else {
                let c = chars.pop_front();
                match c {
                    Some(c) => {
                        out.push_back(c);
                        proof {
                            assert(chars@ =~= before.skip(1));
                            assert(sp_strip(before, false) =~= seq![c] + sp_strip(
                                before.skip(1),
                                false,
                            ));
                            assert(out@ + sp_strip(chars@, false) =~= out_before + sp_strip(
                                before,
                                false,
                            ));
                        }
                    },
                    None => {},
                }
            }
        }
    }
    proof {
        assert(sp_strip(chars@, in_comment) =~= Seq::<char>::empty());
        assert(out@ =~= sp_strip_comments(orig));
    }
    out
}

/// Parses a whole word as an integer in channel range: digits only, value
/// at most 255.
fn parse_channel_int(word: &str) -> (r: Option<u8>)
    ensures
        r == sp_word_int(word@),
{
    let len = word.unicode_len();
    if len == 0 {
        return None;
    }
    let mut val: u32 = 0;
    let mut i: usize = 0;
    while i < len
        invariant
            0 < len == word@.len(),
            i <= len,
            sp_all_digits(word@.take(i as int)),
            val == sp_dec_value(word@.take(i as int)),
            val <= 255,
        decreases len - i,
    {
        let c = word.get_char(i);
        proof {
            assert(word@.take(i + 1).drop_last() =~= word@.take(i as int));
            assert(word@.take(i + 1).last() == word@[i as int]);
        }
        if !('0' <= c && c <= '9') {
            proof {
                assert(!sp_is_digit(word@[i as int]));
                assert(!sp_all_digits(word@));
            }
            return None;
        }
        let d = c as u32 - '0' as u32;
        val = val * 10 + d;
        proof {
            assert(sp_all_digits(word@.take(i + 1)));
        }
        if val > 255 {
            proof {
                if sp_all_digits(word@) {
                    lemma_sp_dec_value_mono(word@, i + 1);
                    assert(sp_dec_value(word@) >= sp_dec_value(word@.take(i + 1)));
                }
            }
            return None;
        }
        i = i + 1;
    }
    proof {
        assert(word@.take(len as int) =~= word@);
    }
    Some(val as u8)
}

/// The value of a digit prefix never exceeds the value of the whole digit
/// string.
proof fn lemma_sp_dec_value_mono(w: Seq<char>, i: int)
    requires
        0 <= i <= w.len(),
        sp_all_digits(w),
    ensures
        sp_dec_value(w) >= sp_dec_value(w.take(i)),
        sp_dec_value(w.take(i)) >= 0,
    decreases w.len(),
{
    lemma_sp_dec_value_nonneg(w);
    if i < w.len() {
        assert(w.drop_last().take(i) =~= w.take(i));
        assert(sp_all_digits(w.drop_last()));
        lemma_sp_dec_value_mono(w.drop_last(), i);
        lemma_sp_dec_value_nonneg(w.drop_last());
    } else {
        assert(w.take(i) =~= w);
        lemma_sp_dec_value_nonneg(w.take(i));
    }
}

proof fn lemma_sp_dec_value_nonneg(w: Seq<char>)
    requires
        sp_all_digits(w),
    ensures
        sp_dec_value(w) >= 0,
    decreases w.len(),
{
    if w.len() > 0 {
        assert(sp_all_digits(w.drop_last()));
        lemma_sp_dec_value_nonneg(w.drop_last());
    }
}

/// Moves the rest of the word at the front of `cs` onto `word`: everything
/// up to the first whitespace or punctuation character.
fn take_word(cs: &mut VecDeque<char>, word: &mut String, Ghost(s0): Ghost<Seq<char>>)
    requires
        1 <= s0.len(),
        old(word)@ == s0.take(1),
        old(cs)@ == s0.skip(1),
    ensures
        final(word)@ == s0.take(sp_word_end(s0, 1)),
        final(cs)@ == s0.skip(sp_word_end(s0, 1)),
{
    let ghost mut k: int = 1;
    loop
        invariant
            1 <= k <= s0.len(),
            word@ == s0.take(k),
            cs@ == s0.skip(k),
            sp_word_end(s0, 1) == sp_word_end(s0, k),
        ensures
            word@ == s0.take(k),
            cs@ == s0.skip(k),
            sp_word_end(s0, 1) == k,
        decreases s0.len() - k,
    {
        if cs.len() == 0 {
            proof {
                assert(k == s0.len());
                assert(sp_word_end(s0, k) == k);
            }
            break ;
        }
        let next = cs[0];
        proof {
            assert(next == s0[k]);
        }
        if is_skip_char(next) || is_token_char(next) {
            proof {
                assert(sp_word_end(s0, k) == k);
            }
            break ;
        }
        let _ = cs.pop_front();
        word.push(next);
        proof {
            assert(cs@ =~= s0.skip(k + 1));
            assert(word@ =~= s0.take(k + 1));
            assert(sp_word_end(s0, k) == sp_word_end(s0, k + 1));
            k = k + 1;
        }
    }
}

/// The token one word stands for.
fn word_token(word: String) -> (t: Token)
    ensures
        t@ == sp_word_token(word@),
{
    if word == String::from_str("let") {
        return Token::Let;
    }
    if word == String::from_str("include") {
        return Token::Include;
    }
    match parse_channel_int(word.as_str()) {
        Some(v) => Token::Int(v),
        None => Token::Identifier(word),
    }
}

/// Turns raw characters into the token sequence of one statement chunk,
/// first stripping `//` comments. The input is consumed. The result is
/// exactly what `sp_lex` says of the comment-stripped text.
#[verifier::loop_isolation(false)]
pub fn lexer(chars: &mut VecDeque<char>) -> (r: Result<VecDeque<Token>, LexFault>)
    ensures
        match r {
            Ok(tokens) => sp_lex(sp_strip_comments(old(chars)@)) == Ok::<Seq<TokenV>, LexFault>(
                tokens.deep_view(),
            ),
            Err(e) => sp_lex(sp_strip_comments(old(chars)@)) == Err::<Seq<TokenV>, LexFault>(e),
        },
{
    let mut cs = remove_comment_line(chars);
    let ghost stripped = cs@;
    let mut tokens: VecDeque<Token> = VecDeque::new();
    proof {
        assert(tokens.deep_view() =~= Seq::<TokenV>::empty());
        assert(tokens.deep_view() + (sp_lex(cs@)->Ok_0) =~= sp_lex(cs@)->Ok_0);
    }
    while cs.len() > 0
        invariant
            sp_lex(stripped) == sp_join(tokens.deep_view(), sp_lex(cs@)),
        decreases cs@.len(),
    {
        let ghost s0 = cs@;
        let ghost acc0 = tokens.deep_view();
        let c = match cs.pop_front() {
            Some(c) => c,
            None => {
                proof {
                    assert(false);
                }
                ' '
            },
        };
        proof {
            assert(cs@ =~= s0.skip(1));
        }
        if is_skip_char(c) {
            continue ;
        }
        if c == '=' {
            tokens.push_back(Token::Assign);
            proof {
                assert(tokens.deep_view() =~= acc0.push(TokenV::Assign));
                push_token_proof(acc0, TokenV::Assign, tokens.deep_view(), sp_lex(cs@));
            }
            continue ;
        }
        if c == '(' {
            tokens.push_back(Token::LeftPare);
            proof {
                assert(tokens.deep_view() =~= acc0.push(TokenV::LeftPare));
                push_token_proof(acc0, TokenV::LeftPare, tokens.deep_view(), sp_lex(cs@));
            }
            continue ;
        }
        if c == ')' {
            tokens.push_back(Token::RightPare);
            proof {
                assert(tokens.deep_view() =~= acc0.push(TokenV::RightPare));
                push_token_proof(acc0, TokenV::RightPare, tokens.deep_view(), sp_lex(cs@));
            }
            continue ;
        }
        if c == ',' {
            tokens.push_back(Token::Comma);
            proof {
                assert(tokens.deep_view() =~= acc0.push(TokenV::Comma));
                push_token_proof(acc0, TokenV::Comma, tokens.deep_view(), sp_lex(cs@));
            }
            continue ;
        }
        if c == '#' {
            let hex = pops_front(&mut cs, 6);
            if hex.len() != 6 {
                proof {
                    assert(s0.len() < 7);
                }
                return Err(LexFault::Value);
            }
            proof {
                assert(s0.len() >= 7);
                assert(hex@ =~= s0.subrange(1, 7));
                assert(cs@ =~= s0.skip(7));
            }
            let color = match Color::from_hex_chars(&hex) {
                Some(color) => color,
                None => {
                    proof {
                        assert(hex@.take(6) =~= hex@);
                    }
                    return Err(LexFault::Value);
                },
            };
            proof {
                assert(hex@.take(6) =~= hex@);
            }
            tokens.push_back(Token::HexColor(color));
            proof {
                assert(tokens.deep_view() =~= acc0.push(TokenV::HexColor(color)));
                push_token_proof(acc0, TokenV::HexColor(color), tokens.deep_view(), sp_lex(cs@));
            }
            continue ;
        }
        // A word: the character just read plus everything up to the next
        // boundary.
        let mut word = String::new();
        word.push(c);
        let ghost n = sp_word_end(s0, 1);
        proof {
            lemma_sp_word_end_bounds(s0, 1);
            assert(word@ =~= s0.take(1));
        }
        take_word(&mut cs, &mut word, Ghost(s0));
        let token = word_token(word);
        tokens.push_back(token);
        proof {
            assert(sp_lex(s0) == sp_cons(sp_word_token(s0.take(n)), sp_lex(s0.skip(n))));
            assert(tokens.deep_view() =~= acc0.push(sp_word_token(s0.take(n))));
            push_token_proof(acc0, sp_word_token(s0.take(n)), tokens.deep_view(), sp_lex(cs@));
        }
    }
    proof {
        assert(sp_lex(cs@) == Ok::<Seq<TokenV>, LexFault>(Seq::<TokenV>::empty()));
        assert(tokens.deep_view() + Seq::<TokenV>::empty() =~= tokens.deep_view());
    }
    Ok(tokens)
}

/// After pushing the token that the front of the text denotes, the loop
/// accumulator still composes to the same whole.
proof fn push_token_proof(
    acc0: Seq<TokenV>,
    t: TokenV,
    acc1: Seq<TokenV>,
    rest: Result<Seq<TokenV>, LexFault>,
)
    requires
        acc1 == acc0.push(t),
    ensures
        sp_join(acc0, sp_cons(t, rest)) == sp_join(acc1, rest),
{
    lemma_sp_join_cons(acc0, t, rest);
}

} // verus!
