//! Greedy word-wrap of plain text into width-bounded lines.
//!
//! The text is read as a stream of whitespace-delimited words and
//! explicit newlines.  Words are packed greedily onto the current
//! line, separated by single spaces, and a word that would push the
//! line past the width limit starts a new line.  A newline in the
//! source always closes the current line and emits an empty separator
//! line, so paragraph breaks survive pagination.  A single word wider
//! than the limit stands alone on its own line, unbroken.
//!
//! The model of the computation is [`spec_break_apart`]: tokenization
//! by [`tokenize`] followed by the greedy fold [`wrap_tokens`].  The
//! executable [`break_apart`] returns exactly those lines.

use vstd::prelude::*;
use vstd::string::StringSliceAdditionalSpecFns;
use crate::ascii::{ascii_seq, chars_of, lemma_ascii_str_bytes};
use crate::font::{glyph_advance, Font};

verus! {

/// Space byte: the separator written between packed words.
pub const SPACE: u8 = 32;

/// Newline byte: an explicit paragraph break.
pub const NEWLINE: u8 = 10;

/// Largest text length the reflow engine accepts; keeps every width
/// sum comfortably inside `u64`.
pub const MAX_TEXT_LEN: usize = 0x1000000;

/// True for bytes treated as blank separators between words.
pub open spec fn is_space(b: u8) -> bool {
    b == 32 || b == 9 || b == 13
}

/// True for the byte that forces a line break.
pub open spec fn is_newline(b: u8) -> bool {
    b == 10
}

/// True for bytes that form words.
pub open spec fn is_word_byte(b: u8) -> bool {
    !is_space(b) && !is_newline(b)
}

/// One element of the tokenized text: a maximal run of word bytes, or
/// an explicit line break.
pub enum SpecToken {
    Word(Seq<u8>),
    Break,
}

/// Length of the word at the head of `text`: the longest prefix made
/// of word bytes.
pub open spec fn word_len(text: Seq<u8>) -> nat
    decreases text.len(),
{
    if text.len() == 0 || !is_word_byte(text[0]) {
        0
    } else {
        1 + word_len(text.drop_first())
    }
}

pub proof fn lemma_word_len_le(text: Seq<u8>)
    ensures
        word_len(text) <= text.len(),
    decreases text.len(),
{
    if text.len() > 0 && is_word_byte(text[0]) {
        lemma_word_len_le(text.drop_first());
    }
}

/// The word prefix is exactly `n` long when the first `n` bytes are
/// word bytes and the text ends or a delimiter follows.
pub proof fn lemma_word_len_exact(text: Seq<u8>, n: nat)
    requires
        n <= text.len(),
        forall|k: int| 0 <= k < n ==> is_word_byte(#[trigger] text[k]),
        n < text.len() ==> !is_word_byte(text[n as int]),
    ensures
        word_len(text) == n,
    decreases n,
{
    if n > 0 {
        lemma_word_len_exact(text.drop_first(), (n - 1) as nat);
    }
}

/// The tokens of `text`: its words in order, interleaved with a
/// `Break` for every newline byte; other blank bytes separate words
/// and leave no token.
pub open spec fn tokenize(text: Seq<u8>) -> Seq<SpecToken>
    decreases text.len(),
        via tokenize_decreases
{
    if text.len() == 0 {
        Seq::empty()
    } else if is_newline(text[0]) {
        seq![SpecToken::Break] + tokenize(text.drop_first())
    } else if is_space(text[0]) {
        tokenize(text.drop_first())
    } else {
        seq![SpecToken::Word(text.take(word_len(text) as int))] + tokenize(
            text.skip(word_len(text) as int),
        )
    }
}

#[via_fn]
proof fn tokenize_decreases(text: Seq<u8>) {
    if text.len() > 0 && !is_newline(text[0]) && !is_space(text[0]) {
        lemma_word_len_le(text);
        assert(word_len(text) >= 1);
    }
}

/// Well-formed tokens: every word is non-empty and holds word bytes
/// only.
pub open spec fn tokens_wf(tokens: Seq<SpecToken>) -> bool {
    forall|i: int|
        0 <= i < tokens.len() ==> match #[trigger] tokens[i] {
            SpecToken::Word(w) => w.len() >= 1 && forall|k: int|
                0 <= k < w.len() ==> is_word_byte(#[trigger] w[k]),
            SpecToken::Break => true,
        }
}

pub proof fn lemma_tokenize_wf(text: Seq<u8>)
    ensures
        tokens_wf(tokenize(text)),
    decreases text.len(),
{
    if text.len() == 0 {
    } else if is_newline(text[0]) {
        lemma_tokenize_wf(text.drop_first());
    } else if is_space(text[0]) {
        lemma_tokenize_wf(text.drop_first());
    } else {
        let n = word_len(text) as int;
        lemma_word_len_le(text);
        lemma_word_len_prefix(text);
        lemma_tokenize_wf(text.skip(n));
    }
}

/// Every byte inside the word prefix is a word byte.
pub proof fn lemma_word_len_prefix(text: Seq<u8>)
    ensures
        forall|k: int| 0 <= k < word_len(text) ==> is_word_byte(#[trigger] text[k]),
    decreases text.len(),
{
    lemma_word_len_le(text);
    if text.len() > 0 && is_word_byte(text[0]) {
        lemma_word_len_prefix(text.drop_first());
        lemma_word_len_le(text.drop_first());
        assert forall|k: int| 0 <= k < word_len(text) implies is_word_byte(#[trigger] text[k]) by {
            if k > 0 {
                assert(text.drop_first()[k - 1] == text[k]);
            }
        }
    }
}

/// Width of a line in layout units: the sum of its glyph advances.
pub open spec fn spec_line_width(widths: Seq<u8>, line: Seq<u8>) -> nat
    decreases line.len(),
{
    if line.len() == 0 {
        0
    } else {
        glyph_advance(widths, line[0]) + spec_line_width(widths, line.drop_first())
    }
}

/// The width of a one-byte line is that glyph's advance.
pub proof fn lemma_line_width_single(widths: Seq<u8>, b: u8)
    ensures
        spec_line_width(widths, seq![b]) == glyph_advance(widths, b),
{
    reveal_with_fuel(spec_line_width, 2);
    assert(seq![b].drop_first() =~= Seq::<u8>::empty());
}

/// Line width distributes over concatenation.
pub proof fn lemma_line_width_concat(widths: Seq<u8>, a: Seq<u8>, b: Seq<u8>)
    ensures
        spec_line_width(widths, a + b) == spec_line_width(widths, a) + spec_line_width(widths, b),
    decreases a.len(),
{
    if a.len() == 0 {
        assert(a + b =~= b);
    } else {
        lemma_line_width_concat(widths, a.drop_first(), b);
        assert((a + b).drop_first() =~= a.drop_first() + b);
    }
}

/// The greedy fold: lays `tokens` out after the partial line `cur`,
/// packing words while they fit within `maxw`, and returns the
/// finished lines.  The final partial line is kept only if non-empty.
pub open spec fn wrap_tokens(
    widths: Seq<u8>,
    maxw: nat,
    tokens: Seq<SpecToken>,
    cur: Seq<u8>,
) -> Seq<Seq<u8>>
    decreases tokens.len(),
{
    if tokens.len() == 0 {
        if cur.len() == 0 {
            Seq::empty()
        } else {
            seq![cur]
        }
    } else {
        let rest = tokens.drop_first();
        match tokens[0] {
            SpecToken::Break => seq![cur, Seq::<u8>::empty()] + wrap_tokens(
                widths,
                maxw,
                rest,
                Seq::empty(),
            ),
            SpecToken::Word(w) => {
                if cur.len() == 0 {
                    wrap_tokens(widths, maxw, rest, w)
                } else if spec_line_width(widths, cur) + glyph_advance(widths, SPACE)
                    + spec_line_width(widths, w) <= maxw {
                    wrap_tokens(widths, maxw, rest, cur + seq![SPACE] + w)
                } else {
                    seq![cur] + wrap_tokens(widths, maxw, rest, w)
                }
            },
        }
    }
}

/// The lines of `text` wrapped to `maxw`: tokenize, then fold.
pub open spec fn spec_break_apart(widths: Seq<u8>, maxw: nat, text: Seq<u8>) -> Seq<Seq<u8>> {
    wrap_tokens(widths, maxw, tokenize(text), Seq::empty())
}

/// True when the line holds a space, i.e. was packed from more than
/// one word.
pub open spec fn has_space(line: Seq<u8>) -> bool {
    exists|i: int| 0 <= i < line.len() && line[i] == SPACE
}

/// Width bound of the greedy fold: every produced line fits within
/// `maxw`, except a line carrying a single unbreakable word (no space
/// in it), which may overflow by design.
pub proof fn lemma_wrap_width_bound(widths: Seq<u8>, maxw: nat, ts: Seq<SpecToken>, cur: Seq<u8>)
    requires
        tokens_wf(ts),
        spec_line_width(widths, cur) <= maxw || !has_space(cur),
    ensures
        forall|i: int|
            0 <= i < wrap_tokens(widths, maxw, ts, cur).len() ==> spec_line_width(
                widths,
                #[trigger] wrap_tokens(widths, maxw, ts, cur)[i],
            ) <= maxw || !has_space(wrap_tokens(widths, maxw, ts, cur)[i]),
    decreases ts.len(),
{
    let res = wrap_tokens(widths, maxw, ts, cur);
    if ts.len() == 0 {
        if cur.len() > 0 {
            assert(res[0] == cur);
        }
    } else {
        let rest = ts.drop_first();
        assert(tokens_wf(rest)) by {
            assert(forall|i: int| 0 <= i < rest.len() ==> rest[i] == ts[i + 1]);
        }
        match ts[0] {
            SpecToken::Break => {
                lemma_wrap_width_bound(widths, maxw, rest, Seq::empty());
                let tail = wrap_tokens(widths, maxw, rest, Seq::<u8>::empty());
                assert forall|i: int|
                    0 <= i < res.len() implies spec_line_width(widths, #[trigger] res[i]) <= maxw
                    || !has_space(res[i]) by {
                    if i == 0 {
                        assert(res[i] == cur);
                    } else if i == 1 {
                        assert(res[i] =~= Seq::<u8>::empty());
                        assert(!has_space(res[i]));
                    } else {
                        assert(res[i] == tail[i - 2]);
                    }
                }
            },
            SpecToken::Word(w) => {
                assert(!has_space(w)) by {
                    assert(forall|k: int| 0 <= k < w.len() ==> is_word_byte(#[trigger] w[k]));
                }
                if cur.len() == 0 {
                    lemma_wrap_width_bound(widths, maxw, rest, w);
                    let tail = wrap_tokens(widths, maxw, rest, w);
                    assert forall|i: int|
                        0 <= i < res.len() implies spec_line_width(widths, #[trigger] res[i])
                        <= maxw || !has_space(res[i]) by {
                        assert(res[i] == tail[i]);
                    }
                } else if spec_line_width(widths, cur) + glyph_advance(widths, SPACE)
                    + spec_line_width(widths, w) <= maxw {
                    let merged = cur + seq![SPACE] + w;
                    assert(spec_line_width(widths, merged) <= maxw) by {
                        lemma_line_width_concat(widths, cur + seq![SPACE], w);
                        lemma_line_width_concat(widths, cur, seq![SPACE]);
                        lemma_line_width_single(widths, SPACE);
                    }
                    lemma_wrap_width_bound(widths, maxw, rest, merged);
                    let tail = wrap_tokens(widths, maxw, rest, merged);
                    assert forall|i: int|
                        0 <= i < res.len() implies spec_line_width(widths, #[trigger] res[i])
                        <= maxw || !has_space(res[i]) by {
                        assert(res[i] == tail[i]);
                    }
                } else {
                    lemma_wrap_width_bound(widths, maxw, rest, w);
                    let tail = wrap_tokens(widths, maxw, rest, w);
                    assert forall|i: int|
                        0 <= i < res.len() implies spec_line_width(widths, #[trigger] res[i])
                        <= maxw || !has_space(res[i]) by {
                        if i == 0 {
                            assert(res[i] == cur);
                        } else {
                            assert(res[i] == tail[i - 1]);
                        }
                    }
                }
            },
        }
    }
}

/// No line of [`spec_break_apart`] is wider than `maxw`, except a
/// line holding one unbreakable word, which has no space in it.
pub proof fn lemma_break_apart_width_bound(widths: Seq<u8>, maxw: nat, text: Seq<u8>)
    ensures
        forall|i: int|
            0 <= i < spec_break_apart(widths, maxw, text).len() ==> spec_line_width(
                widths,
                #[trigger] spec_break_apart(widths, maxw, text)[i],
            ) <= maxw || !has_space(spec_break_apart(widths, maxw, text)[i]),
{
    lemma_tokenize_wf(text);
    lemma_wrap_width_bound(widths, maxw, tokenize(text), Seq::empty());
}

/// Executable counterpart of [`SpecToken`].
pub enum Token {
    Word(Vec<u8>),
    Break,
}

impl View for Token {
    type V = SpecToken;

    open spec fn view(&self) -> SpecToken {
        match self {
            Token::Word(v) => SpecToken::Word(v@),
            Token::Break => SpecToken::Break,
        }
    }
}

/// The spec tokens that a token vector stands for.
pub open spec fn tokens_view(ts: Seq<Token>) -> Seq<SpecToken> {
    ts.map_values(|t: Token| t@)
}

/// True for bytes that end a word.
fn is_delim_byte(b: u8) -> (r: bool)
    ensures
        r == !is_word_byte(b),
{
    b == SPACE || b == 9 || b == 13 || b == NEWLINE
}

/// Splits `bytes` into its tokens, exactly as [`tokenize`] states.
fn tokenize_bytes(bytes: &Vec<u8>) -> (r: Vec<Token>)
    ensures
        tokens_view(r@) == tokenize(bytes@),
{
    let n = bytes.len();
    let mut r: Vec<Token> = Vec::new();
    let mut i: usize = 0;
    proof {
        assert(bytes@.skip(0) =~= bytes@);
        assert(tokens_view(r@) =~= Seq::<SpecToken>::empty());
    }
    while i < n
        invariant
            n == bytes@.len(),
            i <= n,
            tokenize(bytes@) == tokens_view(r@) + tokenize(bytes@.skip(i as int)),
        decreases n - i,
    {
        let b = bytes[i];
        if b == NEWLINE {
            proof {
                assert(bytes@.skip(i as int)[0] == bytes@[i as int]);
                assert(bytes@.skip(i as int).drop_first() =~= bytes@.skip(i + 1));
                assert(tokens_view(r@ + seq![Token::Break]) =~= tokens_view(r@) + seq![
                    SpecToken::Break,
                ]);
                assert((tokens_view(r@) + seq![SpecToken::Break]) + tokenize(bytes@.skip(i + 1))
                    =~= tokens_view(r@) + (seq![SpecToken::Break] + tokenize(bytes@.skip(i + 1))));
            }
            r.push(Token::Break);
            i += 1;
        } else if b == SPACE || b == 9 || b == 13 {
            proof {
                assert(bytes@.skip(i as int)[0] == bytes@[i as int]);
                assert(bytes@.skip(i as int).drop_first() =~= bytes@.skip(i + 1));
            }
            i += 1;
        } else {
            let start = i;
            let mut w: Vec<u8> = Vec::new();
            let mut j = i;
            while j < n && !is_delim_byte(bytes[j])
                invariant
                    n == bytes@.len(),
                    start <= j <= n,
                    w@ =~= bytes@.subrange(start as int, j as int),
                    forall|k: int| start <= k < j ==> is_word_byte(#[trigger] bytes@[k]),
                decreases n - j,
            {
                w.push(bytes[j]);
                j += 1;
            }
            proof {
                let tail = bytes@.skip(start as int);
                assert forall|k: int| 0 <= k < j - start implies is_word_byte(
                    #[trigger] tail[k],
                ) by {
                    assert(tail[k] == bytes@[start + k]);
                }
                if j < n {
                    assert(tail[j - start] == bytes@[j as int]);
                    assert(!is_word_byte(tail[j - start]));
                }
                lemma_word_len_exact(tail, (j - start) as nat);
                assert(tail.take(j - start) =~= bytes@.subrange(start as int, j as int));
                assert(tail.skip(j - start) =~= bytes@.skip(j as int));
                assert(tokenize(tail) == seq![SpecToken::Word(w@)] + tokenize(bytes@.skip(j as int)));
                assert(tokens_view(r@ + seq![Token::Word(w)]) =~= tokens_view(r@) + seq![
                    SpecToken::Word(w@),
                ]);
                assert((tokens_view(r@) + seq![SpecToken::Word(w@)]) + tokenize(
                    bytes@.skip(j as int),
                ) =~= tokens_view(r@) + (seq![SpecToken::Word(w@)] + tokenize(bytes@.skip(j as int))));
            }
            r.push(Token::Word(w));
            i = j;
        }
    }
    proof {
        assert(bytes@.skip(n as int) =~= Seq::<u8>::empty());
        assert(tokenize(bytes@) =~= tokens_view(r@));
    }
    r
}

/// A positive advance for every glyph bounds a line's width from
/// below by its length.
pub proof fn lemma_line_width_lower(widths: Seq<u8>, line: Seq<u8>)
    requires
        widths.len() == 128,
        forall|i: int| 0 <= i < widths.len() ==> 1 <= #[trigger] widths[i],
    ensures
        spec_line_width(widths, line) >= line.len(),
    decreases line.len(),
{
    if line.len() > 0 {
        lemma_line_width_lower(widths, line.drop_first());
    }
}

/// Every word among `ts` holds ASCII bytes only.
pub open spec fn tokens_ascii(ts: Seq<SpecToken>) -> bool {
    forall|i: int|
        0 <= i < ts.len() ==> match #[trigger] ts[i] {
            SpecToken::Word(w) => ascii_seq(w),
            SpecToken::Break => true,
        }
}

/// Every word among `ts` is at most `n` long.
pub open spec fn tokens_small(ts: Seq<SpecToken>, n: nat) -> bool {
    forall|i: int|
        0 <= i < ts.len() ==> match #[trigger] ts[i] {
            SpecToken::Word(w) => w.len() <= n,
            SpecToken::Break => true,
        }
}

/// Words never outgrow the text they came from, and ASCII text yields
/// ASCII words.
pub proof fn lemma_tokenize_props(text: Seq<u8>)
    ensures
        tokens_small(tokenize(text), text.len()),
        ascii_seq(text) ==> tokens_ascii(tokenize(text)),
    decreases text.len(),
{
    if text.len() == 0 {
    } else if !is_word_byte(text[0]) {
        lemma_tokenize_props(text.drop_first());
        assert(ascii_seq(text) ==> ascii_seq(text.drop_first()));
    } else {
        let n = word_len(text) as int;
        lemma_word_len_le(text);
        assert(n >= 1);
        lemma_tokenize_props(text.skip(n));
        assert(ascii_seq(text) ==> ascii_seq(text.skip(n)));
        assert(ascii_seq(text) ==> ascii_seq(text.take(n)));
    }
}

/// ASCII words packed after an ASCII partial line give ASCII lines.
pub proof fn lemma_wrap_ascii(widths: Seq<u8>, maxw: nat, ts: Seq<SpecToken>, cur: Seq<u8>)
    requires
        tokens_ascii(ts),
        ascii_seq(cur),
    ensures
        forall|i: int|
            0 <= i < wrap_tokens(widths, maxw, ts, cur).len() ==> ascii_seq(
                #[trigger] wrap_tokens(widths, maxw, ts, cur)[i],
            ),
    decreases ts.len(),
{
    let res = wrap_tokens(widths, maxw, ts, cur);
    if ts.len() > 0 {
        let rest = ts.drop_first();
        assert(tokens_ascii(rest));
        match ts[0] {
            SpecToken::Break => {
                lemma_wrap_ascii(widths, maxw, rest, Seq::empty());
                let tail = wrap_tokens(widths, maxw, rest, Seq::<u8>::empty());
                assert forall|i: int| 0 <= i < res.len() implies ascii_seq(#[trigger] res[i]) by {
                    if i == 0 {
                        assert(res[i] == cur);
                    } else if i == 1 {
                        assert(res[i] =~= Seq::<u8>::empty());
                        assert(ascii_seq(res[i]));
                    } else {
                        assert(res[i] == tail[i - 2]);
                    }
                }
            },
            SpecToken::Word(w) => {
                assert(ascii_seq(w));
                if cur.len() == 0 {
                    lemma_wrap_ascii(widths, maxw, rest, w);
                    let tail = wrap_tokens(widths, maxw, rest, w);
                    assert forall|i: int| 0 <= i < res.len() implies ascii_seq(
                        #[trigger] res[i],
                    ) by {
                        assert(res[i] == tail[i]);
                    }
                } else if spec_line_width(widths, cur) + glyph_advance(widths, SPACE)
                    + spec_line_width(widths, w) <= maxw {
                    assert(ascii_seq(cur + seq![SPACE] + w));
                    lemma_wrap_ascii(widths, maxw, rest, cur + seq![SPACE] + w);
                    let tail = wrap_tokens(widths, maxw, rest, cur + seq![SPACE] + w);
                    assert forall|i: int| 0 <= i < res.len() implies ascii_seq(
                        #[trigger] res[i],
                    ) by {
                        assert(res[i] == tail[i]);
                    }
                } else {
                    lemma_wrap_ascii(widths, maxw, rest, w);
                    let tail = wrap_tokens(widths, maxw, rest, w);
                    assert forall|i: int| 0 <= i < res.len() implies ascii_seq(
                        #[trigger] res[i],
                    ) by {
                        if i == 0 {
                            assert(res[i] == cur);
                        } else {
                            assert(res[i] == tail[i - 1]);
                        }
                    }
                }
            },
        }
    } else {
        if cur.len() > 0 {
            assert(res[0] == cur);
        }
    }
}

/// The byte lines that a line vector stands for.
pub open spec fn lines_view(ls: Seq<Vec<u8>>) -> Seq<Seq<u8>> {
    ls.map_values(|l: Vec<u8>| l@)
}

/// Copies a byte vector.
fn copy_bytes(v: &Vec<u8>) -> (r: Vec<u8>)
    ensures
        r@ == v@,
{
    let mut r: Vec<u8> = Vec::new();
    let mut i: usize = 0;
    while i < v.len()
        invariant
            i <= v@.len(),
            r@ =~= v@.take(i as int),
        decreases v@.len() - i,
    {
        r.push(v[i]);
        i += 1;
    }
    proof {
        assert(v@.take(v@.len() as int) =~= v@);
    }
    r
}

/// Sum of the glyph advances of a byte line.
pub fn line_width_of(font: &Font, wv: &Vec<u8>) -> (ww: u64)
    requires
        font.valid(),
        wv@.len() <= MAX_TEXT_LEN,
    ensures
        ww == spec_line_width(font.widths@, wv@),
        ww <= 64 * wv@.len(),
{
    let mut ww: u64 = 0;
    let mut k: usize = 0;
    while k < wv.len()
        invariant
            font.valid(),
            k <= wv@.len(),
            wv@.len() <= MAX_TEXT_LEN,
            ww == spec_line_width(font.widths@, wv@.take(k as int)),
            ww <= 64 * k,
        decreases wv@.len() - k,
    {
        let a = font.advance(wv[k]);
        proof {
            assert(wv@.take(k as int + 1) =~= wv@.take(k as int) + seq![wv@[k as int]]);
            lemma_line_width_concat(font.widths@, wv@.take(k as int), seq![wv@[k as int]]);
            lemma_line_width_single(font.widths@, wv@[k as int]);
        }
        ww = ww + a as u64;
        k += 1;
    }
    proof {
        assert(wv@.take(wv@.len() as int) =~= wv@);
    }
    ww
}

/// Folds the tokens into lines, exactly as [`wrap_tokens`] states.
fn wrap_words(tokens: &Vec<Token>, max_width: u32, font: &Font) -> (r: Vec<Vec<u8>>)
    requires
        font.valid(),
        tokens_small(tokens_view(tokens@), MAX_TEXT_LEN as nat),
    ensures
        lines_view(r@) == wrap_tokens(
            font.widths@,
            max_width as nat,
            tokens_view(tokens@),
            Seq::empty(),
        ),
{
    let ghost toks = tokens_view(tokens@);
    let ghost w128 = font.widths@;
    let ghost maxn = max_width as nat;
    let mut lines: Vec<Vec<u8>> = Vec::new();
    let mut cur: Vec<u8> = Vec::new();
    let mut curw: u64 = 0;
    let mut idx: usize = 0;
    proof {
        assert(toks.skip(0) =~= toks);
        assert(lines_view(lines@) =~= Seq::<Seq<u8>>::empty());
    }
    while idx < tokens.len()
        invariant
            font.valid(),
            toks == tokens_view(tokens@),
            w128 == font.widths@,
            maxn == max_width as nat,
            tokens_small(toks, MAX_TEXT_LEN as nat),
            idx <= tokens@.len(),
            curw == spec_line_width(w128, cur@),
            curw <= maxn + 0x4000_0040,
            wrap_tokens(w128, maxn, toks, Seq::empty()) == lines_view(lines@) + wrap_tokens(
                w128,
                maxn,
                toks.skip(idx as int),
                cur@,
            ),
        decreases tokens@.len() - idx,
    {
        proof {
            assert(toks.skip(idx as int)[0] == toks[idx as int]);
            assert(toks.skip(idx as int).drop_first() =~= toks.skip(idx + 1));
            assert(toks[idx as int] == tokens@[idx as int]@);
        }
        match &tokens[idx] {
            Token::Break => {
                let mut done: Vec<u8> = Vec::new();
                core::mem::swap(&mut done, &mut cur);
                let ghost l0 = lines_view(lines@);
                let ghost dcur = done@;
                lines.push(done);
                lines.push(Vec::new());
                curw = 0;
                proof {
                    assert(lines_view(lines@) =~= l0 + seq![dcur, Seq::<u8>::empty()]);
                    assert((l0 + seq![dcur, Seq::<u8>::empty()]) + wrap_tokens(
                        w128,
                        maxn,
                        toks.skip(idx + 1),
                        Seq::empty(),
                    ) =~= l0 + (seq![dcur, Seq::<u8>::empty()] + wrap_tokens(
                        w128,
                        maxn,
                        toks.skip(idx + 1),
                        Seq::empty(),
                    )));
                }
            },
            Token::Word(wv) => {
                let ww = line_width_of(font, wv);
                if cur.len() == 0 {
                    cur = copy_bytes(wv);
                    curw = ww;
                } else {
                    let sw = font.advance(SPACE) as u64;
                    if curw + sw + ww <= max_width as u64 {
                        let ghost cur0 = cur@;
                        cur.push(SPACE);
                        let mut k: usize = 0;
                        while k < wv.len()
                            invariant
                                k <= wv@.len(),
                                cur@ =~= cur0 + seq![SPACE] + wv@.take(k as int),
                            decreases wv@.len() - k,
                        {
                            let b = wv[k];
                            proof {
                                assert((cur0 + seq![SPACE] + wv@.take(k as int)).push(b) =~= cur0
                                    + seq![SPACE] + wv@.take(k as int + 1));
                            }
                            cur.push(b);
                            k += 1;
                        }
                        proof {
                            assert(wv@.take(wv@.len() as int) =~= wv@);
                            assert(cur@ =~= (cur0 + seq![SPACE]) + wv@);
                            lemma_line_width_concat(w128, cur0 + seq![SPACE], wv@);
                            lemma_line_width_concat(w128, cur0, seq![SPACE]);
                            lemma_line_width_single(w128, SPACE);
                        }
                        curw = curw + sw + ww;
                    } else {
                        let done = copy_bytes(&cur);
                        proof {
                            let l0 = lines_view(lines@);
                            assert(lines_view(lines@ + seq![done]) =~= l0 + seq![done@]);
                            assert((l0 + seq![cur@]) + wrap_tokens(
                                w128,
                                maxn,
                                toks.skip(idx + 1),
                                wv@,
                            ) =~= l0 + (seq![cur@] + wrap_tokens(w128, maxn, toks.skip(idx + 1), wv@)));
                        }
                        lines.push(done);
                        cur = copy_bytes(wv);
                        curw = ww;
                    }
                }
            },
        }
        idx += 1;
    }
    proof {
        assert(toks.skip(toks.len() as int) =~= Seq::<SpecToken>::empty());
    }
    if cur.len() > 0 {
        proof {
            let l0 = lines_view(lines@);
            assert(lines_view(lines@ + seq![cur]) =~= l0 + seq![cur@]);
        }
        lines.push(cur);
    } else {
        proof {
            assert(lines_view(lines@) + Seq::<Seq<u8>>::empty() =~= lines_view(lines@));
        }
    }
    lines
}

/// The larger of the width limit and the longest word.
pub open spec fn line_len_bound(maxw: nat, n: nat) -> nat {
    if maxw > n {
        maxw
    } else {
        n
    }
}

/// Every produced line is short: a merged line's length is bounded by
/// its width and so by `maxw`, and a single-word line by the longest
/// word.
pub proof fn lemma_wrap_line_len(
    widths: Seq<u8>,
    maxw: nat,
    ts: Seq<SpecToken>,
    cur: Seq<u8>,
    n: nat,
)
    requires
        widths.len() == 128,
        forall|i: int| 0 <= i < widths.len() ==> 1 <= #[trigger] widths[i],
        tokens_small(ts, n),
        cur.len() <= line_len_bound(maxw, n),
    ensures
        forall|i: int|
            0 <= i < wrap_tokens(widths, maxw, ts, cur).len() ==> (#[trigger] wrap_tokens(
                widths,
                maxw,
                ts,
                cur,
            )[i]).len() <= line_len_bound(maxw, n),
    decreases ts.len(),
{
    let res = wrap_tokens(widths, maxw, ts, cur);
    let bound = line_len_bound(maxw, n);
    if ts.len() == 0 {
        if cur.len() > 0 {
            assert(res[0] == cur);
        }
    } else {
        let rest = ts.drop_first();
        assert(tokens_small(rest, n)) by {
            assert(forall|i: int| 0 <= i < rest.len() ==> rest[i] == ts[i + 1]);
        }
        match ts[0] {
            SpecToken::Break => {
                lemma_wrap_line_len(widths, maxw, rest, Seq::empty(), n);
                let tail = wrap_tokens(widths, maxw, rest, Seq::<u8>::empty());
                assert forall|i: int| 0 <= i < res.len() implies (#[trigger] res[i]).len()
                    <= bound by {
                    if i == 0 {
                        assert(res[i] == cur);
                    } else if i == 1 {
                        assert(res[i] =~= Seq::<u8>::empty());
                    } else {
                        assert(res[i] == tail[i - 2]);
                    }
                }
            },
            SpecToken::Word(w) => {
                assert(w.len() <= n);
                if cur.len() == 0 {
                    lemma_wrap_line_len(widths, maxw, rest, w, n);
                    let tail = wrap_tokens(widths, maxw, rest, w);
                    assert forall|i: int| 0 <= i < res.len() implies (#[trigger] res[i]).len()
                        <= bound by {
                        assert(res[i] == tail[i]);
                    }
                } else if spec_line_width(widths, cur) + glyph_advance(widths, SPACE)
                    + spec_line_width(widths, w) <= maxw {
                    let merged = cur + seq![SPACE] + w;
                    assert(merged.len() <= bound) by {
                        lemma_line_width_concat(widths, cur + seq![SPACE], w);
                        lemma_line_width_concat(widths, cur, seq![SPACE]);
                        lemma_line_width_single(widths, SPACE);
                        lemma_line_width_lower(widths, merged);
                    }
                    lemma_wrap_line_len(widths, maxw, rest, merged, n);
                    let tail = wrap_tokens(widths, maxw, rest, merged);
                    assert forall|i: int| 0 <= i < res.len() implies (#[trigger] res[i]).len()
                        <= bound by {
                        assert(res[i] == tail[i]);
                    }
                } else {
                    lemma_wrap_line_len(widths, maxw, rest, w, n);
                    let tail = wrap_tokens(widths, maxw, rest, w);
                    assert forall|i: int| 0 <= i < res.len() implies (#[trigger] res[i]).len()
                        <= bound by {
                        if i == 0 {
                            assert(res[i] == cur);
                        } else {
                            assert(res[i] == tail[i - 1]);
                        }
                    }
                }
            },
        }
    }
}

/// The fold emits at most two lines per token, plus the final one.
pub proof fn lemma_wrap_count(widths: Seq<u8>, maxw: nat, ts: Seq<SpecToken>, cur: Seq<u8>)
    ensures
        wrap_tokens(widths, maxw, ts, cur).len() <= 2 * ts.len() + 1,
    decreases ts.len(),
{
    if ts.len() > 0 {
        let rest = ts.drop_first();
        match ts[0] {
            SpecToken::Break => {
                lemma_wrap_count(widths, maxw, rest, Seq::empty());
            },
            SpecToken::Word(w) => {
                if cur.len() == 0 {
                    lemma_wrap_count(widths, maxw, rest, w);
                } else if spec_line_width(widths, cur) + glyph_advance(widths, SPACE)
                    + spec_line_width(widths, w) <= maxw {
                    lemma_wrap_count(widths, maxw, rest, cur + seq![SPACE] + w);
                } else {
                    lemma_wrap_count(widths, maxw, rest, w);
                }
            },
        }
    }
}

/// A text has no more tokens than bytes.
pub proof fn lemma_tokenize_count(text: Seq<u8>)
    ensures
        tokenize(text).len() <= text.len(),
    decreases text.len(),
{
    if text.len() == 0 {
    } else if !is_word_byte(text[0]) {
        lemma_tokenize_count(text.drop_first());
    } else {
        let n = word_len(text) as int;
        lemma_word_len_le(text);
        assert(n >= 1);
        lemma_tokenize_count(text.skip(n));
    }
}

/// A trailing delimiter never changes a leading word: appending text
/// that starts with a delimiter leaves the word prefix as it is.
pub proof fn lemma_word_len_concat(a: Seq<u8>, b: Seq<u8>)
    requires
        b.len() > 0,
        !is_word_byte(b[0]),
    ensures
        word_len(a + b) == word_len(a),
    decreases a.len(),
{
    if a.len() == 0 {
        assert(a + b =~= b);
    } else if is_word_byte(a[0]) {
        assert((a + b)[0] == a[0]);
        assert((a + b).drop_first() =~= a.drop_first() + b);
        lemma_word_len_concat(a.drop_first(), b);
    } else {
        assert((a + b)[0] == a[0]);
    }
}

/// Tokenization splits at a newline: the tokens of `a`, one `Break`,
/// then the tokens of `b`.
pub proof fn lemma_tokenize_concat_break(a: Seq<u8>, b: Seq<u8>)
    ensures
        tokenize(a + seq![NEWLINE] + b) == tokenize(a) + seq![SpecToken::Break] + tokenize(b),
    decreases a.len(),
{
    let nl = seq![NEWLINE];
    let s = a + nl + b;
    if a.len() == 0 {
        assert(s =~= nl + b);
        assert((nl + b)[0] == NEWLINE);
        assert((nl + b).drop_first() =~= b);
        assert(tokenize(s) =~= tokenize(a) + seq![SpecToken::Break] + tokenize(b));
    } else {
        assert(s[0] == a[0]);
        if is_newline(a[0]) {
            assert(s.drop_first() =~= a.drop_first() + nl + b);
            lemma_tokenize_concat_break(a.drop_first(), b);
            assert(tokenize(s) =~= tokenize(a) + seq![SpecToken::Break] + tokenize(b));
        } else if is_space(a[0]) {
            assert(s.drop_first() =~= a.drop_first() + nl + b);
            lemma_tokenize_concat_break(a.drop_first(), b);
        } else {
            let n = word_len(a) as int;
            lemma_word_len_le(a);
            assert(n >= 1);
            assert(a + nl + b =~= a + (nl + b));
            lemma_word_len_concat(a, nl + b);
            assert(word_len(s) == n);
            assert(s.take(n) =~= a.take(n));
            assert(s.skip(n) =~= a.skip(n) + nl + b);
            lemma_tokenize_concat_break(a.skip(n), b);
            assert(tokenize(s) =~= tokenize(a) + seq![SpecToken::Break] + tokenize(b));
        }
    }
}

/// The greedy fold with its final partial line always closed, even
/// when that line is empty.
pub open spec fn wrap_flush(
    widths: Seq<u8>,
    maxw: nat,
    tokens: Seq<SpecToken>,
    cur: Seq<u8>,
) -> Seq<Seq<u8>>
    decreases tokens.len(),
{
    if tokens.len() == 0 {
        seq![cur]
    } else {
        let rest = tokens.drop_first();
        match tokens[0] {
            SpecToken::Break => seq![cur, Seq::<u8>::empty()] + wrap_flush(
                widths,
                maxw,
                rest,
                Seq::empty(),
            ),
            SpecToken::Word(w) => {
                if cur.len() == 0 {
                    wrap_flush(widths, maxw, rest, w)
                } else if spec_line_width(widths, cur) + glyph_advance(widths, SPACE)
                    + spec_line_width(widths, w) <= maxw {
                    wrap_flush(widths, maxw, rest, cur + seq![SPACE] + w)
                } else {
                    seq![cur] + wrap_flush(widths, maxw, rest, w)
                }
            },
        }
    }
}

/// The lines of `text` with the final partial line closed even when
/// it is empty: how text before an explicit break is laid out.
pub open spec fn spec_flush_apart(widths: Seq<u8>, maxw: nat, text: Seq<u8>) -> Seq<Seq<u8>> {
    wrap_flush(widths, maxw, tokenize(text), Seq::empty())
}

/// The greedy fold splits at a `Break` token: the tokens before it
/// are laid out with their last line closed, an empty separator line
/// follows, and the tokens after it start on a fresh line.
pub proof fn lemma_wrap_break_split(
    widths: Seq<u8>,
    maxw: nat,
    t1: Seq<SpecToken>,
    t2: Seq<SpecToken>,
    cur: Seq<u8>,
)
    ensures
        wrap_tokens(widths, maxw, t1 + seq![SpecToken::Break] + t2, cur) == wrap_flush(
            widths,
            maxw,
            t1,
            cur,
        ) + seq![Seq::<u8>::empty()] + wrap_tokens(widths, maxw, t2, Seq::empty()),
    decreases t1.len(),
{
    let brk = seq![SpecToken::Break];
    let ts = t1 + brk + t2;
    if t1.len() == 0 {
        assert(ts =~= brk + t2);
        assert(ts[0] == SpecToken::Break);
        assert(ts.drop_first() =~= t2);
        assert(wrap_tokens(widths, maxw, ts, cur) =~= wrap_flush(widths, maxw, t1, cur) + seq![
            Seq::<u8>::empty(),
        ] + wrap_tokens(widths, maxw, t2, Seq::empty()));
    } else {
        assert(ts[0] == t1[0]);
        assert(ts.drop_first() =~= t1.drop_first() + brk + t2);
        let rest = t1.drop_first();
        match t1[0] {
            SpecToken::Break => {
                lemma_wrap_break_split(widths, maxw, rest, t2, Seq::empty());
                assert(wrap_tokens(widths, maxw, ts, cur) =~= wrap_flush(widths, maxw, t1, cur)
                    + seq![Seq::<u8>::empty()] + wrap_tokens(widths, maxw, t2, Seq::empty()));
            },
            SpecToken::Word(w) => {
                if cur.len() == 0 {
                    lemma_wrap_break_split(widths, maxw, rest, t2, w);
                } else if spec_line_width(widths, cur) + glyph_advance(widths, SPACE)
                    + spec_line_width(widths, w) <= maxw {
                    lemma_wrap_break_split(widths, maxw, rest, t2, cur + seq![SPACE] + w);
                } else {
                    lemma_wrap_break_split(widths, maxw, rest, t2, w);
                    assert(wrap_tokens(widths, maxw, ts, cur) =~= wrap_flush(widths, maxw, t1, cur)
                        + seq![Seq::<u8>::empty()] + wrap_tokens(widths, maxw, t2, Seq::empty()));
                }
            },
        }
    }
}

/// An explicit paragraph break always begins a new line: the text
/// before the newline is laid out on its own with its last line
/// closed, one empty separator line follows, and the text after the
/// newline is laid out exactly as if it began a fresh document —
/// whatever width the line before the break had left.
pub proof fn lemma_paragraph_break(widths: Seq<u8>, maxw: nat, a: Seq<u8>, b: Seq<u8>)
    ensures
        spec_break_apart(widths, maxw, a + seq![NEWLINE] + b) == spec_flush_apart(widths, maxw, a)
            + seq![Seq::<u8>::empty()] + spec_break_apart(widths, maxw, b),
{
    lemma_tokenize_concat_break(a, b);
    lemma_wrap_break_split(widths, maxw, tokenize(a), tokenize(b), Seq::empty());
}

/// The words among a token sequence, in order.
pub open spec fn token_words(ts: Seq<SpecToken>) -> Seq<Seq<u8>>
    decreases ts.len(),
{
    if ts.len() == 0 {
        Seq::empty()
    } else {
        match ts[0] {
            SpecToken::Word(w) => seq![w] + token_words(ts.drop_first()),
            SpecToken::Break => token_words(ts.drop_first()),
        }
    }
}

/// The words of each line, all lines in order.
pub open spec fn lines_words(lines: Seq<Seq<u8>>) -> Seq<Seq<u8>>
    decreases lines.len(),
{
    if lines.len() == 0 {
        Seq::empty()
    } else {
        token_words(tokenize(lines[0])) + lines_words(lines.drop_first())
    }
}

proof fn lemma_lines_words_concat(a: Seq<Seq<u8>>, b: Seq<Seq<u8>>)
    ensures
        lines_words(a + b) == lines_words(a) + lines_words(b),
    decreases a.len(),
{
    if a.len() == 0 {
        assert(a + b =~= b);
        assert(lines_words(a) + lines_words(b) =~= lines_words(b));
    } else {
        assert((a + b).drop_first() =~= a.drop_first() + b);
        lemma_lines_words_concat(a.drop_first(), b);
        assert((a + b)[0] == a[0]);
        assert(lines_words(a + b) =~= lines_words(a) + lines_words(b));
    }
}

/// A run of word bytes tokenizes to itself, one word.
proof fn lemma_tokenize_single_word(w: Seq<u8>)
    requires
        w.len() >= 1,
        forall|k: int| 0 <= k < w.len() ==> is_word_byte(#[trigger] w[k]),
    ensures
        tokenize(w) == seq![SpecToken::Word(w)],
{
    lemma_word_len_exact(w, w.len());
    assert(w.take(w.len() as int) =~= w);
    assert(w.skip(w.len() as int) =~= Seq::<u8>::empty());
    assert(tokenize(Seq::<u8>::empty()) =~= Seq::<SpecToken>::empty());
    assert(tokenize(w) =~= seq![SpecToken::Word(w)]);
}

/// Tokenization splits at a space, which itself leaves no token.
proof fn lemma_tokenize_concat_space(a: Seq<u8>, b: Seq<u8>)
    ensures
        tokenize(a + seq![SPACE] + b) == tokenize(a) + tokenize(b),
    decreases a.len(),
{
    let sp = seq![SPACE];
    let s = a + sp + b;
    if a.len() == 0 {
        assert(s =~= sp + b);
        assert((sp + b)[0] == SPACE);
        assert((sp + b).drop_first() =~= b);
        assert(tokenize(s) =~= tokenize(a) + tokenize(b));
    } else {
        assert(s[0] == a[0]);
        if !is_word_byte(a[0]) {
            assert(s.drop_first() =~= a.drop_first() + sp + b);
            lemma_tokenize_concat_space(a.drop_first(), b);
            assert(tokenize(s) =~= tokenize(a) + tokenize(b));
        } else {
            let n = word_len(a) as int;
            lemma_word_len_le(a);
            assert(n >= 1);
            assert(a + sp + b =~= a + (sp + b));
            lemma_word_len_concat(a, sp + b);
            assert(word_len(s) == n);
            assert(s.take(n) =~= a.take(n));
            assert(s.skip(n) =~= a.skip(n) + sp + b);
            lemma_tokenize_concat_space(a.skip(n), b);
            assert(tokenize(s) =~= tokenize(a) + tokenize(b));
        }
    }
}

/// The greedy fold neither loses, repeats nor reorders words: the
/// words of its lines are the partial line's words followed by the
/// words among the tokens.
proof fn lemma_wrap_words(widths: Seq<u8>, maxw: nat, ts: Seq<SpecToken>, cur: Seq<u8>)
    requires
        tokens_wf(ts),
    ensures
        lines_words(wrap_tokens(widths, maxw, ts, cur)) == token_words(tokenize(cur))
            + token_words(ts),
    decreases ts.len(),
{
    let res = wrap_tokens(widths, maxw, ts, cur);
    if ts.len() == 0 {
        if cur.len() == 0 {
            assert(tokenize(cur) =~= Seq::<SpecToken>::empty());
            assert(lines_words(res) =~= token_words(tokenize(cur)) + token_words(ts));
        } else {
            reveal_with_fuel(lines_words, 2);
            assert(res =~= seq![cur]);
            assert(seq![cur].drop_first() =~= Seq::<Seq<u8>>::empty());
            assert(lines_words(Seq::<Seq<u8>>::empty()) =~= Seq::<Seq<u8>>::empty());
            assert(lines_words(res) =~= token_words(tokenize(cur)) + token_words(ts));
        }
    } else {
        let rest = ts.drop_first();
        assert(tokens_wf(rest)) by {
            assert(forall|i: int| 0 <= i < rest.len() ==> rest[i] == ts[i + 1]);
        }
        match ts[0] {
            SpecToken::Break => {
                lemma_wrap_words(widths, maxw, rest, Seq::empty());
                let tail = wrap_tokens(widths, maxw, rest, Seq::<u8>::empty());
                lemma_lines_words_concat(seq![cur, Seq::<u8>::empty()], tail);
                assert(res =~= seq![cur, Seq::<u8>::empty()] + tail);
                assert(tokenize(Seq::<u8>::empty()) =~= Seq::<SpecToken>::empty());
                assert(lines_words(seq![cur, Seq::<u8>::empty()]) =~= token_words(tokenize(cur)))
                    by {
                    reveal_with_fuel(lines_words, 3);
                    reveal_with_fuel(token_words, 2);
                    assert(seq![cur, Seq::<u8>::empty()].drop_first() =~= seq![Seq::<u8>::empty()]);
                    assert(seq![Seq::<u8>::empty()].drop_first() =~= Seq::<Seq<u8>>::empty());
                    assert(seq![cur, Seq::<u8>::empty()][0] == cur);
                    assert(seq![Seq::<u8>::empty()][0] =~= Seq::<u8>::empty());
                }
                assert(lines_words(res) =~= token_words(tokenize(cur)) + token_words(ts));
            },
            SpecToken::Word(w) => {
                assert(w.len() >= 1 && forall|k: int|
                    0 <= k < w.len() ==> is_word_byte(#[trigger] w[k]));
                lemma_tokenize_single_word(w);
                if cur.len() == 0 {
                    lemma_wrap_words(widths, maxw, rest, w);
                    assert(tokenize(cur) =~= Seq::<SpecToken>::empty());
                    assert(token_words(tokenize(w)) =~= seq![w]) by {
                        reveal_with_fuel(token_words, 2);
                        assert(seq![SpecToken::Word(w)].drop_first() =~= Seq::<SpecToken>::empty());
                    }
                    assert(token_words(Seq::<SpecToken>::empty()) =~= Seq::<Seq<u8>>::empty());
                    assert(lines_words(res) =~= token_words(tokenize(cur)) + token_words(ts));
                } else if spec_line_width(widths, cur) + glyph_advance(widths, SPACE)
                    + spec_line_width(widths, w) <= maxw {
                    let merged = cur + seq![SPACE] + w;
                    lemma_wrap_words(widths, maxw, rest, merged);
                    lemma_tokenize_concat_space(cur, w);
                    assert(token_words(tokenize(merged)) =~= token_words(tokenize(cur)) + seq![w])
                        by {
                        lemma_token_words_concat(tokenize(cur), tokenize(w));
                        reveal_with_fuel(token_words, 2);
                        assert(seq![SpecToken::Word(w)].drop_first() =~= Seq::<SpecToken>::empty());
                        assert(token_words(tokenize(w)) =~= seq![w]);
                    }
                    assert((token_words(tokenize(cur)) + seq![w]) + token_words(rest)
                        =~= token_words(tokenize(cur)) + (seq![w] + token_words(rest)));
                    assert(lines_words(res) =~= token_words(tokenize(cur)) + token_words(ts));
                } else {
                    lemma_wrap_words(widths, maxw, rest, w);
                    let tail = wrap_tokens(widths, maxw, rest, w);
                    lemma_lines_words_concat(seq![cur], tail);
                    assert(res =~= seq![cur] + tail);
                    assert(lines_words(seq![cur]) =~= token_words(tokenize(cur))) by {
                        reveal_with_fuel(lines_words, 2);
                        assert(seq![cur].drop_first() =~= Seq::<Seq<u8>>::empty());
                    }
                    assert(token_words(tokenize(w)) =~= seq![w]) by {
                        reveal_with_fuel(token_words, 2);
                        assert(seq![SpecToken::Word(w)].drop_first() =~= Seq::<SpecToken>::empty());
                    }
                    assert(token_words(tokenize(cur)) + (seq![w] + token_words(rest))
                        =~= (token_words(tokenize(cur)) + seq![w]) + token_words(rest));
                    assert(lines_words(res) =~= token_words(tokenize(cur)) + token_words(ts));
                }
            },
        }
    }
}

proof fn lemma_token_words_concat(a: Seq<SpecToken>, b: Seq<SpecToken>)
    ensures
        token_words(a + b) == token_words(a) + token_words(b),
    decreases a.len(),
{
    if a.len() == 0 {
        assert(a + b =~= b);
        assert(token_words(a) + token_words(b) =~= token_words(b));
    } else {
        assert((a + b).drop_first() =~= a.drop_first() + b);
        lemma_token_words_concat(a.drop_first(), b);
        assert((a + b)[0] == a[0]);
        assert(token_words(a + b) =~= token_words(a) + token_words(b));
    }
}

/// Reflow keeps every word, in source order, each exactly once: the
/// words of the wrapped lines, read line by line, are exactly the
/// words of the source text.
pub proof fn lemma_words_preserved(widths: Seq<u8>, maxw: nat, text: Seq<u8>)
    ensures
        lines_words(spec_break_apart(widths, maxw, text)) == token_words(tokenize(text)),
{
    lemma_tokenize_wf(text);
    lemma_wrap_words(widths, maxw, tokenize(text), Seq::empty());
    assert(tokenize(Seq::<u8>::empty()) =~= Seq::<SpecToken>::empty());
    assert(token_words(Seq::<SpecToken>::empty()) + token_words(tokenize(text)) =~= token_words(
        tokenize(text),
    ));
}

/// The reflowed lines of a text, in source order.
pub struct LineBreakResult {
    pub split: Vec<String>,
}

/// Wraps `text` into lines at most `max_width` layout units wide, as
/// [`spec_break_apart`] states: words are packed greedily, a newline
/// always breaks the line and leaves an empty separator line, and a
/// single word wider than `max_width` stands alone unbroken.
pub fn break_apart(text: &str, max_width: u32, font: &Font) -> (r: LineBreakResult)
    requires
        font.valid(),
        text.is_ascii(),
        text@.len() <= MAX_TEXT_LEN,
    ensures
        ({
            let model = spec_break_apart(font.widths@, max_width as nat, text.spec_bytes());
            &&& r.split@.len() == model.len()
            &&& forall|i: int|
                0 <= i < model.len() ==> (#[trigger] r.split@[i])@ == chars_of(model[i])
        }),
{
    proof {
        lemma_ascii_str_bytes(text);
    }
    let bytes = text.as_bytes_vec();
    proof {
        lemma_tokenize_props(bytes@);
    }
    let tokens = tokenize_bytes(&bytes);
    let lines = wrap_words(&tokens, max_width, font);
    proof {
        lemma_wrap_ascii(font.widths@, max_width as nat, tokenize(bytes@), Seq::empty());
    }
    let ghost model = spec_break_apart(font.widths@, max_width as nat, text.spec_bytes());
    let mut split: Vec<String> = Vec::new();
    let mut i: usize = 0;
    while i < lines.len()
        invariant
            i <= lines@.len(),
            lines_view(lines@) == model,
            forall|j: int| 0 <= j < model.len() ==> ascii_seq(#[trigger] model[j]),
            split@.len() == i,
            forall|j: int| 0 <= j < i ==> (#[trigger] split@[j])@ == chars_of(model[j]),
        decreases lines@.len() - i,
    {
        let line = copy_bytes(&lines[i]);
        proof {
            assert(lines_view(lines@)[i as int] == lines@[i as int]@);
        }
        split.push(crate::ascii::ascii_bytes_to_string(line));
        i += 1;
    }
    LineBreakResult { split }
}

} // verus!
